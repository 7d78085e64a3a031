//! Character-level building blocks shared by the persistence codec and the
//! wire-format codec: string/char-vector conversion, escaping of quoted
//! strings, and decimal rendering and parsing of 64-bit integers.

use vstd::prelude::*;
use vstd::string::StrSliceExecFns;
use vstd::string::StringExecFns;

verus! {

/// Collect the characters of a string slice into a vector.
pub fn str_chars(s: &str) -> (r: Vec<char>)
    ensures
        r@ == s@,
{
    let n: usize = s.unicode_len();
    let mut r: Vec<char> = Vec::new();
    let mut i: usize = 0;
    while i < n
        invariant
            i <= n,
            n == s@.len(),
            r@ == s@.subrange(0, i as int),
        decreases n - i,
    {
        r.push(s.get_char(i));
        i = i + 1;
        proof {
            assert(r@ =~= s@.subrange(0, i as int));
        }
    }
    proof {
        assert(r@ =~= s@);
    }
    r
}

/// Relies on `String`'s `FromIterator<char>` implementation in std: collecting
/// a sequence of characters yields the string with exactly those characters.
#[verifier::external_body]
pub fn chars_string(v: &Vec<char>) -> (r: String)
    ensures
        r@ == v@,
{
    v.iter().collect()
}

/// How one character appears inside a quoted string: quotes and backslashes
/// get a backslash escape, every other character stands for itself.
pub open spec fn esc_char(c: char) -> Seq<char> {
    if c == '\\' || c == '"' {
        seq!['\\', c]
    } else {
        seq![c]
    }
}

/// The escaped form of a whole string.
pub open spec fn escaped(s: Seq<char>) -> Seq<char>
    decreases s.len(),
{
    if s.len() == 0 {
        Seq::<char>::empty()
    } else {
        esc_char(s[0]) + escaped(s.drop_first())
    }
}

/// The escaped form of a single character is its escape sequence.
pub proof fn lemma_escaped_singleton(c: char)
    ensures
        escaped(seq![c]) == esc_char(c),
{
    assert(seq![c].drop_first() =~= Seq::<char>::empty());
    assert(escaped(Seq::<char>::empty()) =~= Seq::<char>::empty());
    assert(escaped(seq![c]) =~= esc_char(c) + escaped(Seq::<char>::empty()));
    assert(esc_char(c) + Seq::<char>::empty() =~= esc_char(c));
}

/// Escaping distributes over concatenation.
pub proof fn lemma_escaped_app(a: Seq<char>, b: Seq<char>)
    ensures
        escaped(a + b) == escaped(a) + escaped(b),
    decreases a.len(),
{
    if a.len() == 0 {
        assert(a + b =~= b);
        assert(escaped(a) + escaped(b) =~= escaped(b));
    } else {
        lemma_escaped_app(a.drop_first(), b);
        assert((a + b).drop_first() =~= a.drop_first() + b);
        assert(escaped(a + b) =~= escaped(a) + escaped(b));
    }
}

/// Append the escaped form of `s` to `out`.
pub fn push_escaped(out: &mut Vec<char>, s: &Vec<char>)
    ensures
        final(out)@ == old(out)@ + escaped(s@),
{
    let n = s.len();
    let mut i: usize = 0;
    while i < n
        invariant
            i <= n,
            n == s@.len(),
            out@ == old(out)@ + escaped(s@.subrange(0, i as int)),
        decreases n - i,
    {
        let c = s[i];
        if c == '\\' || c == '"' {
            out.push('\\');
            out.push(c);
        } else {
            out.push(c);
        }
        proof {
            let pre = s@.subrange(0, i as int);
            assert(s@.subrange(0, i + 1) =~= pre + seq![s@[i as int]]);
            lemma_escaped_app(pre, seq![s@[i as int]]);
            lemma_escaped_singleton(s@[i as int]);
            assert(out@ =~= old(out)@ + escaped(s@.subrange(0, i + 1)));
        }
        i = i + 1;
    }
    proof {
        assert(s@.subrange(0, n as int) =~= s@);
    }
}

/// The decimal digit character for a value below ten.
pub open spec fn digit_char(d: nat) -> char {
    if d == 0 {
        '0'
    } else if d == 1 {
        '1'
    } else if d == 2 {
        '2'
    } else if d == 3 {
        '3'
    } else if d == 4 {
        '4'
    } else if d == 5 {
        '5'
    } else if d == 6 {
        '6'
    } else if d == 7 {
        '7'
    } else if d == 8 {
        '8'
    } else {
        '9'
    }
}

/// Whether a character is a decimal digit.
pub open spec fn is_digit(c: char) -> bool {
    c == '0' || c == '1' || c == '2' || c == '3' || c == '4' || c == '5' || c == '6' || c == '7'
        || c == '8' || c == '9'
}

/// Numeric value of a digit character.
pub open spec fn digit_val(c: char) -> nat {
    if c == '0' {
        0
    } else if c == '1' {
        1
    } else if c == '2' {
        2
    } else if c == '3' {
        3
    } else if c == '4' {
        4
    } else if c == '5' {
        5
    } else if c == '6' {
        6
    } else if c == '7' {
        7
    } else if c == '8' {
        8
    } else {
        9
    }
}

/// Decimal rendering of a natural number, most significant digit first, no
/// leading zeros (a single `'0'` for zero).
pub open spec fn dec_digits(n: nat) -> Seq<char>
    decreases n,
{
    if n < 10 {
        seq![digit_char(n)]
    } else {
        dec_digits(n / 10) + seq![digit_char(n % 10)]
    }
}

/// Decimal rendering of a signed integer: a minus sign for negatives,
/// followed by the digits of its magnitude.
pub open spec fn int_chars(v: int) -> Seq<char> {
    if v < 0 {
        seq!['-'] + dec_digits((-v) as nat)
    } else {
        dec_digits(v as nat)
    }
}

/// Value of a digit string, most significant digit first.
pub open spec fn dec_value(ds: Seq<char>) -> nat
    decreases ds.len(),
{
    if ds.len() == 0 {
        0
    } else {
        dec_value(ds.drop_last()) * 10 + digit_val(ds.last())
    }
}

/// Every character of a decimal rendering is a digit.
pub proof fn lemma_dec_digits_are_digits(n: nat)
    ensures
        forall|i: int| 0 <= i < dec_digits(n).len() ==> is_digit(#[trigger] dec_digits(n)[i]),
        dec_digits(n).len() >= 1,
    decreases n,
{
    if n >= 10 {
        lemma_dec_digits_are_digits(n / 10);
    }
}

/// Digit characters decode back to their value.
pub proof fn lemma_digit_round_trip(d: nat)
    requires
        d < 10,
    ensures
        digit_val(digit_char(d)) == d,
{
}

/// Reading back the decimal rendering of `n` yields `n`.
pub proof fn lemma_dec_round_trip(n: nat)
    ensures
        dec_value(dec_digits(n)) == n,
    decreases n,
{
    if n < 10 {
        lemma_digit_round_trip(n);
        assert(dec_digits(n).drop_last() =~= Seq::<char>::empty());
        assert(dec_digits(n).last() == digit_char(n));
        assert(dec_value(Seq::<char>::empty()) == 0);
        assert(dec_value(dec_digits(n)) == 0 * 10 + digit_val(digit_char(n)));
    } else {
        lemma_dec_round_trip(n / 10);
        lemma_digit_round_trip(n % 10);
        assert(dec_digits(n).drop_last() =~= dec_digits(n / 10));
        assert(dec_digits(n).last() == digit_char(n % 10));
    }
}

/// Powers of ten.
pub open spec fn pow10(k: nat) -> nat
    decreases k,
{
    if k == 0 {
        1
    } else {
        10 * pow10((k - 1) as nat)
    }
}

/// A number below ten to the power of `k` renders to at most `k` digits
/// (at least one digit is always produced).
pub proof fn lemma_dec_digits_len(n: nat, k: nat)
    requires
        k >= 1,
        n < pow10(k),
    ensures
        dec_digits(n).len() <= k,
    decreases n,
{
    if n >= 10 {
        assert(pow10(k) == 10 * pow10((k - 1) as nat));
        lemma_dec_digits_len(n / 10, (k - 1) as nat);
    }
}

/// Append the decimal rendering of `n` to `out`.
pub fn push_u64(out: &mut Vec<char>, n: u64)
    ensures
        final(out)@ == old(out)@ + dec_digits(n as nat),
    decreases n,
{
    if n < 10 {
        out.push(digit_char_exec(n));
        proof {
            assert(final(out)@ =~= old(out)@ + dec_digits(n as nat));
        }
    } else {
        push_u64(out, n / 10);
        out.push(digit_char_exec(n % 10));
        proof {
            assert(final(out)@ =~= old(out)@ + dec_digits(n as nat));
        }
    }
}

/// Append the decimal rendering of `v`, minus sign included, to `out`.
pub fn push_i64(out: &mut Vec<char>, v: i64)
    ensures
        final(out)@ == old(out)@ + int_chars(v as int),
{
    if v < 0 {
        out.push('-');
        let m: u64 = if v == i64::MIN {
            9223372036854775808u64
        } else {
            (-v) as u64
        };
        push_u64(out, m);
        proof {
            assert(final(out)@ =~= old(out)@ + int_chars(v as int));
        }
    } else {
        push_u64(out, v as u64);
    }
}

/// The digit character of a value below ten.
pub fn digit_char_exec(d: u64) -> (c: char)
    requires
        d < 10,
    ensures
        c == digit_char(d as nat),
{
    if d == 0 {
        '0'
    } else if d == 1 {
        '1'
    } else if d == 2 {
        '2'
    } else if d == 3 {
        '3'
    } else if d == 4 {
        '4'
    } else if d == 5 {
        '5'
    } else if d == 6 {
        '6'
    } else if d == 7 {
        '7'
    } else if d == 8 {
        '8'
    } else {
        '9'
    }
}

/// Whether a character is a decimal digit.
pub fn is_digit_exec(c: char) -> (r: bool)
    ensures
        r == is_digit(c),
{
    c == '0' || c == '1' || c == '2' || c == '3' || c == '4' || c == '5' || c == '6' || c == '7'
        || c == '8' || c == '9'
}

/// Numeric value of a digit character.
pub fn digit_val_exec(c: char) -> (d: u64)
    requires
        is_digit(c),
    ensures
        d == digit_val(c),
        d < 10,
{
    if c == '0' {
        0
    } else if c == '1' {
        1
    } else if c == '2' {
        2
    } else if c == '3' {
        3
    } else if c == '4' {
        4
    } else if c == '5' {
        5
    } else if c == '6' {
        6
    } else if c == '7' {
        7
    } else if c == '8' {
        8
    } else {
        9
    }
}

/// Result of parsing the inside of a quoted string that starts at `i` (just
/// past the opening quote): the unescaped text and the position just past the
/// closing quote. `None` on an unterminated string or an unknown escape.
pub open spec fn parse_qstr_body(s: Seq<char>, i: int) -> Option<(Seq<char>, int)>
    decreases s.len() - i,
{
    if i < 0 || i >= s.len() {
        None
    } else if s[i] == '"' {
        Some((Seq::<char>::empty(), i + 1))
    } else if s[i] == '\\' {
        if i + 1 < s.len() && (s[i + 1] == '\\' || s[i + 1] == '"') {
            match parse_qstr_body(s, i + 2) {
                Some((t, e)) => Some((seq![s[i + 1]] + t, e)),
                None => None,
            }
        } else {
            None
        }
    } else {
        match parse_qstr_body(s, i + 1) {
            Some((t, e)) => Some((seq![s[i]] + t, e)),
            None => None,
        }
    }
}

/// A parsed quoted string ends within bounds, past where it began.
pub proof fn lemma_qstr_body_bounds(s: Seq<char>, i: int)
    requires
        parse_qstr_body(s, i) is Some,
    ensures
        i < parse_qstr_body(s, i)->Some_0.1 <= s.len(),
    decreases s.len() - i,
{
    if 0 <= i < s.len() && s[i] != '"' {
        if s[i] == '\\' {
            lemma_qstr_body_bounds(s, i + 2);
        } else {
            lemma_qstr_body_bounds(s, i + 1);
        }
    }
}

/// Parsing the escaped form of `v` followed by a closing quote recovers `v`
/// and stops just past that quote.
pub proof fn lemma_qstr_round_trip(s: Seq<char>, i: int, v: Seq<char>)
    requires
        0 <= i,
        i + escaped(v).len() + 1 <= s.len(),
        s.subrange(i, i + escaped(v).len() + 1) == escaped(v) + seq!['"'],
    ensures
        parse_qstr_body(s, i) == Some((v, i + escaped(v).len() + 1)),
    decreases v.len(),
{
    let piece = s.subrange(i, i + escaped(v).len() + 1);
    if v.len() == 0 {
        assert(escaped(v) =~= Seq::<char>::empty());
        assert(piece.len() == 1);
        assert(s[i] == piece[0]);
        assert(piece[0] == (escaped(v) + seq!['"'])[0]);
        assert(s[i] == '"');
    } else {
        let c = v[0];
        let v1 = v.drop_first();
        assert(v =~= seq![c] + v1);
        lemma_escaped_singleton(c);
        lemma_escaped_app(seq![c], v1);
        assert(escaped(v) =~= esc_char(c) + escaped(v1));
        let w = esc_char(c).len();
        let i1 = i + w;
        assert(s.subrange(i1, i1 + escaped(v1).len() + 1) =~= escaped(v1) + seq!['"']) by {
            let inner = s.subrange(i1, i1 + escaped(v1).len() + 1);
            assert forall|j: int| 0 <= j < inner.len() implies inner[j] == (escaped(v1)
                + seq!['"'])[j] by {
                assert(inner[j] == s[i1 + j]);
                assert(s[i1 + j] == piece[w + j]);
                assert(piece[w + j] == (escaped(v) + seq!['"'])[w + j]);
            }
        }
        lemma_qstr_round_trip(s, i1, v1);
        assert(s[i] == piece[0]);
        assert(piece[0] == (escaped(v) + seq!['"'])[0]);
        assert((escaped(v) + seq!['"'])[0] == esc_char(c)[0]);
        if c == '\\' || c == '"' {
            assert(esc_char(c) =~= seq!['\\', c]);
            assert(s[i] == '\\');
            assert(s[i + 1] == piece[1]);
            assert(piece[1] == (escaped(v) + seq!['"'])[1]);
            assert((escaped(v) + seq!['"'])[1] == esc_char(c)[1]);
            assert(s[i + 1] == c);
            assert(parse_qstr_body(s, i) == qstr_cont(parse_qstr_body(s, i + 2), seq![c]));
            assert(seq![c] + v1 =~= v);
        } else {
            assert(esc_char(c) =~= seq![c]);
            assert(s[i] == c);
            assert(s[i] != '"' && s[i] != '\\');
            assert(parse_qstr_body(s, i) == qstr_cont(parse_qstr_body(s, i + 1), seq![c]));
            assert(seq![c] + v1 =~= v);
        }
    }
}

/// A partial quoted-string parse continued after an already-unescaped prefix.
pub open spec fn qstr_cont(res: Option<(Seq<char>, int)>, pre: Seq<char>) -> Option<
    (Seq<char>, int),
> {
    match res {
        Some((t, e)) => Some((pre + t, e)),
        None => None,
    }
}

/// Scan the inside of a quoted string starting at `start` (just past the
/// opening quote); return the unescaped text and the position just past the
/// closing quote.
pub fn scan_qstr_body(s: &Vec<char>, start: usize) -> (r: Option<(Vec<char>, usize)>)
    requires
        start <= s@.len(),
    ensures
        match r {
            Some(p) => parse_qstr_body(s@, start as int) == Some((p.0@, p.1 as int)) && p.1
                <= s@.len(),
            None => parse_qstr_body(s@, start as int) is None,
        },
{
    let mut i: usize = start;
    let mut out: Vec<char> = Vec::new();
    loop
        invariant
            start <= i <= s@.len(),
            parse_qstr_body(s@, start as int) == qstr_cont(parse_qstr_body(s@, i as int), out@),
        decreases s@.len() - i,
    {
        if i >= s.len() {
            return None;
        }
        let c = s[i];
        if c == '"' {
            proof {
                assert(parse_qstr_body(s@, i as int) == Some((Seq::<char>::empty(), i + 1)));
                assert(out@ + Seq::<char>::empty() =~= out@);
            }
            return Some((out, i + 1));
        } else if c == '\\' {
            if i + 1 < s.len() {
                let c2 = s[i + 1];
                if c2 == '\\' || c2 == '"' {
                    let ghost out0 = out@;
                    out.push(c2);
                    proof {
                        if parse_qstr_body(s@, i + 2) is Some {
                            let t = parse_qstr_body(s@, i + 2)->Some_0.0;
                            assert(out0 + (seq![c2] + t) =~= out@ + t);
                        }
                    }
                    i = i + 2;
                } else {
                    return None;
                }
            } else {
                return None;
            }
        } else {
            let ghost out0 = out@;
            out.push(c);
            proof {
                if parse_qstr_body(s@, i + 1) is Some {
                    let t = parse_qstr_body(s@, i + 1)->Some_0.0;
                    assert(out0 + (seq![c] + t) =~= out@ + t);
                }
            }
            i = i + 1;
        }
    }
}

/// First position at or after `i` that does not hold a digit.
pub open spec fn digits_end(s: Seq<char>, i: int) -> int
    decreases s.len() - i,
{
    if 0 <= i < s.len() && is_digit(s[i]) {
        digits_end(s, i + 1)
    } else {
        i
    }
}

/// The end of a digit run does not precede its start and stays in bounds.
pub proof fn lemma_digits_end_bounds(s: Seq<char>, i: int)
    requires
        0 <= i <= s.len(),
    ensures
        i <= digits_end(s, i) <= s.len(),
    decreases s.len() - i,
{
    if i < s.len() && is_digit(s[i]) {
        lemma_digits_end_bounds(s, i + 1);
    }
}

/// A run of digits from `i` to `e`, followed by a non-digit or the end of the
/// input, ends exactly at `e`.
pub proof fn lemma_digits_end_of_run(s: Seq<char>, i: int, e: int)
    requires
        0 <= i <= e <= s.len(),
        forall|k: int| i <= k < e ==> is_digit(#[trigger] s[k]),
        e == s.len() || !is_digit(s[e]),
    ensures
        digits_end(s, i) == e,
    decreases e - i,
{
    if i < e {
        lemma_digits_end_of_run(s, i + 1, e);
    }
}

/// Parse an optionally signed decimal integer starting at `i`: its
/// mathematical value and the position just past its digits. Runs longer than
/// nineteen digits and values outside the signed 64-bit range are rejected.
pub open spec fn parse_i64_at(s: Seq<char>, i: int) -> Option<(i64, int)> {
    let neg = 0 <= i < s.len() && s[i] == '-';
    let j = if neg {
        i + 1
    } else {
        i
    };
    let e = digits_end(s, j);
    if e == j || e - j > 19 {
        None
    } else {
        let m = dec_value(s.subrange(j, e)) as int;
        let v = if neg {
            -m
        } else {
            m
        };
        if i64::MIN <= v <= i64::MAX {
            Some((v as i64, e))
        } else {
            None
        }
    }
}

/// Ten to the nineteenth, spelled out, for overflow bounds on digit runs.
pub proof fn lemma_pow10_19()
    ensures
        pow10(19) == 10000000000000000000,
{
    assert(pow10(0) == 1);
    assert(pow10(1) == 10);
    assert(pow10(2) == 100);
    assert(pow10(3) == 1000);
    assert(pow10(4) == 10000);
    assert(pow10(5) == 100000);
    assert(pow10(6) == 1000000);
    assert(pow10(7) == 10000000);
    assert(pow10(8) == 100000000);
    assert(pow10(9) == 1000000000);
    assert(pow10(10) == 10000000000);
    assert(pow10(11) == 100000000000);
    assert(pow10(12) == 1000000000000);
    assert(pow10(13) == 10000000000000);
    assert(pow10(14) == 100000000000000);
    assert(pow10(15) == 1000000000000000);
    assert(pow10(16) == 10000000000000000);
    assert(pow10(17) == 100000000000000000);
    assert(pow10(18) == 1000000000000000000);
    assert(pow10(19) == 10000000000000000000);
}

/// Powers of ten do not shrink as the exponent grows.
pub proof fn lemma_pow10_mono(a: nat, b: nat)
    requires
        a <= b,
    ensures
        pow10(a) <= pow10(b),
    decreases b,
{
    if a < b {
        lemma_pow10_mono(a, (b - 1) as nat);
        assert(pow10(b) == 10 * pow10((b - 1) as nat));
    }
}

/// A parsed integer ends within bounds, past where it began.
pub proof fn lemma_parse_i64_bounds(s: Seq<char>, i: int)
    requires
        0 <= i <= s.len(),
        parse_i64_at(s, i) is Some,
    ensures
        i < parse_i64_at(s, i)->Some_0.1 <= s.len(),
{
    let neg = 0 <= i < s.len() && s[i] == '-';
    let j = if neg {
        i + 1
    } else {
        i
    };
    lemma_digits_end_bounds(s, j);
}

/// Scan an optionally signed decimal integer starting at `start`.
pub fn scan_i64(s: &Vec<char>, start: usize) -> (r: Option<(i64, usize)>)
    requires
        start <= s@.len(),
    ensures
        match r {
            Some(p) => parse_i64_at(s@, start as int) == Some((p.0, p.1 as int)) && p.1
                <= s@.len(),
            None => parse_i64_at(s@, start as int) is None,
        },
{
    let n = s.len();
    let neg = start < n && s[start] == '-';
    let j: usize = if neg {
        start + 1
    } else {
        start
    };
    let mut e: usize = j;
    while e < n && is_digit_exec(s[e])
        invariant
            j <= e <= n,
            n == s@.len(),
            forall|k: int| j <= k < e ==> is_digit(#[trigger] s@[k]),
        decreases n - e,
    {
        e = e + 1;
    }
    proof {
        lemma_digits_end_of_run(s@, j as int, e as int);
    }
    if e == j || e - j > 19 {
        return None;
    }
    let mut acc: u64 = 0;
    let mut k: usize = j;
    proof {
        lemma_pow10_19();
        assert(s@.subrange(j as int, j as int) =~= Seq::<char>::empty());
    }
    while k < e
        invariant
            j <= k <= e <= s@.len(),
            e - j <= 19,
            forall|q: int| j <= q < e ==> is_digit(#[trigger] s@[q]),
            acc == dec_value(s@.subrange(j as int, k as int)),
            acc < pow10((k - j) as nat),
            pow10(19) == 10000000000000000000,
        decreases e - k,
    {
        let d = digit_val_exec(s[k]);
        proof {
            lemma_pow10_mono((k - j + 1) as nat, 19);
            assert(pow10((k - j + 1) as nat) == 10 * pow10((k - j) as nat));
            assert(s@.subrange(j as int, k + 1).drop_last() =~= s@.subrange(j as int, k as int));
        }
        acc = acc * 10 + d;
        k = k + 1;
    }
    if neg {
        if acc > 9223372036854775808u64 {
            return None;
        }
        let v: i64 = if acc == 9223372036854775808u64 {
            i64::MIN
        } else {
            -(acc as i64)
        };
        Some((v, e))
    } else {
        if acc > 9223372036854775807u64 {
            return None;
        }
        Some((acc as i64, e))
    }
}

/// Parsing the decimal rendering of `v`, when what follows it is not a digit,
/// recovers `v` and stops just past its digits.
pub proof fn lemma_int_round_trip(s: Seq<char>, i: int, v: i64)
    requires
        0 <= i,
        i + int_chars(v as int).len() <= s.len(),
        s.subrange(i, i + int_chars(v as int).len()) == int_chars(v as int),
        i + int_chars(v as int).len() == s.len() || !is_digit(s[i + int_chars(v as int).len()]),
    ensures
        parse_i64_at(s, i) == Some((v, i + int_chars(v as int).len())),
{
    let cs = int_chars(v as int);
    let m: nat = if v < 0 {
        (-(v as int)) as nat
    } else {
        v as nat
    };
    let ds = dec_digits(m);
    lemma_dec_digits_are_digits(m);
    lemma_dec_round_trip(m);
    lemma_pow10_19();
    assert(m < pow10(19));
    lemma_dec_digits_len(m, 19);
    let j = if v < 0 {
        i + 1
    } else {
        i
    };
    assert(cs.len() == (if v < 0 {
        1
    } else {
        0int
    }) + ds.len());
    assert forall|k: int| j <= k < j + ds.len() implies is_digit(#[trigger] s[k]) by {
        assert(s[k] == s.subrange(i, i + cs.len())[k - i]);
        assert(cs[k - i] == ds[k - j]);
    }
    if v < 0 {
        assert(s[i] == s.subrange(i, i + cs.len())[0]);
        assert(cs[0] == '-');
        assert(!is_digit('-'));
    } else {
        assert(s[i] == s.subrange(i, i + cs.len())[0]);
        assert(cs[0] == ds[0]);
        assert(is_digit(s[i]));
        assert(s[i] != '-');
    }
    lemma_digits_end_of_run(s, j, j + ds.len());
    assert(s.subrange(j, j + ds.len()) =~= ds) by {
        assert forall|k: int| 0 <= k < ds.len() implies s.subrange(j, j + ds.len())[k] == ds[k] by {
            assert(s.subrange(j, j + ds.len())[k] == s[j + k]);
            assert(s[j + k] == s.subrange(i, i + cs.len())[j + k - i]);
            assert(cs[j + k - i] == ds[k]);
        }
    }
    assert(ds.len() >= 1);
    assert(ds.len() <= 19);
}

/// Compare two strings by their characters.
pub fn string_eq(a: &String, b: &String) -> (r: bool)
    ensures
        r == (a@ == b@),
{
    *a == *b
}

/// Copy the characters of `s` between `a` and `b` into a fresh vector.
pub fn copy_range(s: &Vec<char>, a: usize, b: usize) -> (r: Vec<char>)
    requires
        a <= b <= s@.len(),
    ensures
        r@ == s@.subrange(a as int, b as int),
{
    let mut r: Vec<char> = Vec::new();
    let mut i: usize = a;
    while i < b
        invariant
            a <= i <= b <= s@.len(),
            r@ == s@.subrange(a as int, i as int),
        decreases b - i,
    {
        r.push(s[i]);
        proof {
            assert(r@ =~= s@.subrange(a as int, i + 1));
        }
        i = i + 1;
    }
    r
}

/// Whether the characters of `lit` appear at position `i` of `s`.
pub open spec fn lit_at(s: Seq<char>, i: int, lit: Seq<char>) -> bool {
    0 <= i && i + lit.len() <= s.len() && s.subrange(i, i + lit.len()) == lit
}

/// Check whether the characters of `lit` appear at position `i` of `s`.
pub fn match_at(s: &Vec<char>, i: usize, lit: &str) -> (r: bool)
    ensures
        r == lit_at(s@, i as int, lit@),
{
    let n = s.len();
    let m = lit.unicode_len();
    if i > n || m > n - i {
        return false;
    }
    let mut j: usize = 0;
    while j < m
        invariant
            j <= m,
            m == lit@.len(),
            n == s@.len(),
            i + m <= n,
            forall|k: int| 0 <= k < j ==> s@[i + k] == lit@[k],
        decreases m - j,
    {
        if s[i + j] != lit.get_char(j) {
            proof {
                assert(s@.subrange(i as int, i + m)[j as int] == s@[i + j]);
            }
            return false;
        }
        j = j + 1;
    }
    proof {
        assert(s@.subrange(i as int, i + m) =~= lit@);
    }
    true
}

/// Append the characters of `lit` to `out`.
pub fn push_lit(out: &mut Vec<char>, lit: &str)
    ensures
        final(out)@ == old(out)@ + lit@,
{
    let m = lit.unicode_len();
    let mut j: usize = 0;
    while j < m
        invariant
            j <= m,
            m == lit@.len(),
            out@ == old(out)@ + lit@.subrange(0, j as int),
        decreases m - j,
    {
        out.push(lit.get_char(j));
        proof {
            assert(old(out)@ + lit@.subrange(0, j + 1) =~= (old(out)@ + lit@.subrange(
                0,
                j as int,
            )).push(lit@[j as int]));
        }
        j = j + 1;
    }
    proof {
        assert(lit@.subrange(0, m as int) =~= lit@);
    }
}

/// A known stretch of `s` passes its own sub-stretches through: if `t` sits at
/// position `i` of `s` and `p` sits at offset `off` of `t`, then `p` sits at
/// position `i + off` of `s`.
pub proof fn lemma_piece(s: Seq<char>, i: int, t: Seq<char>, off: int, p: Seq<char>)
    requires
        0 <= i,
        i + t.len() <= s.len(),
        s.subrange(i, i + t.len()) == t,
        0 <= off,
        off + p.len() <= t.len(),
        t.subrange(off, off + p.len()) == p,
    ensures
        lit_at(s, i + off, p),
{
    assert forall|k: int| 0 <= k < p.len() implies s.subrange(i + off, i + off + p.len())[k]
        == p[k] by {
        assert(s.subrange(i + off, i + off + p.len())[k] == s[i + off + k]);
        assert(s[i + off + k] == s.subrange(i, i + t.len())[off + k]);
        assert(t.subrange(off, off + p.len())[k] == t[off + k]);
    }
    assert(s.subrange(i + off, i + off + p.len()) =~= p);
}

/// Whether `p` occurs as a contiguous run inside `s`.
pub open spec fn has_sub(s: Seq<char>, p: Seq<char>) -> bool {
    exists|k: int| 0 <= k && k + p.len() <= s.len() && #[trigger] s.subrange(k, k + p.len()) == p
}

/// Substring search: whether `p` occurs contiguously inside `s`.
pub fn contains_sub(s: &Vec<char>, p: &Vec<char>) -> (r: bool)
    ensures
        r == has_sub(s@, p@),
{
    let n = s.len();
    let m = p.len();
    if m > n {
        proof {
            assert(!has_sub(s@, p@));
        }
        return false;
    }
    let mut k: usize = 0;
    while k <= n - m
        invariant
            m <= n,
            n == s@.len(),
            m == p@.len(),
            k <= n - m + 1,
            forall|q: int| 0 <= q < k ==> #[trigger] s@.subrange(q, q + p@.len()) != p@,
        decreases n - m + 1 - k,
    {
        let mut j: usize = 0;
        let mut hit = true;
        while j < m
            invariant
                m <= n,
                n == s@.len(),
                m == p@.len(),
                k + m <= n,
                j <= m,
                hit == (s@.subrange(k as int, k + j) =~= p@.subrange(0, j as int)),
            decreases m - j,
        {
            proof {
                assert(s@.subrange(k as int, k + j + 1).drop_last() =~= s@.subrange(
                    k as int,
                    k + j,
                ));
                assert(p@.subrange(0, j + 1).drop_last() =~= p@.subrange(0, j as int));
                assert(s@.subrange(k as int, k + j + 1).last() == s@[k + j]);
                assert(p@.subrange(0, j + 1).last() == p@[j as int]);
            }
            if s[k + j] != p[j] {
                hit = false;
                proof {
                    assert(s@.subrange(k as int, k + m)[j as int] == s@[k + j]);
                    assert(p@.subrange(0, m as int)[j as int] == p@[j as int]);
                    assert(s@.subrange(k as int, k + m) != p@.subrange(0, m as int));
                }
                j = m;
            } else {
                proof {
                    if hit {
                        assert(s@.subrange(k as int, k + j + 1) =~= s@.subrange(k as int, k
                            + j).push(s@[k + j]));
                        assert(p@.subrange(0, j + 1) =~= p@.subrange(0, j as int).push(
                            p@[j as int],
                        ));
                    }
                }
                j = j + 1;
            }
        }
        if hit {
            proof {
                assert(s@.subrange(k as int, k + m) =~= p@);
            }
            return true;
        }
        k = k + 1;
    }
    proof {
        assert forall|q: int| 0 <= q && q + p@.len() <= s@.len() implies #[trigger] s@.subrange(
            q,
            q + p@.len(),
        ) != p@ by {
            assert(q < k);
        }
    }
    false
}

} // verus!
