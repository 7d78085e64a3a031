//! The cache's persistence format: a JSON-shaped rendering of the saved
//! record collection and of the friendly-name index, written and read only by
//! this crate. The decoder accepts exactly what the encoder produces; anything
//! else counts as a corrupt blob and is rejected as a whole.

use vstd::prelude::*;
use crate::model::{LocalConnectionRecord, RecordView};
use crate::text::{
    chars_string, escaped, int_chars, lemma_int_round_trip, lemma_piece, lemma_qstr_body_bounds,
    lemma_qstr_round_trip, lit_at, match_at, parse_i64_at, parse_qstr_body, push_escaped, push_i64,
    push_lit, scan_i64, scan_qstr_body, str_chars,
};

verus! {

/// Opening of a record object, up to and including the quote of the id value.
pub open spec fn rec_open() -> Seq<char> {
    "{\"id\":\""@
}

/// Separator between the id value and the link token value.
pub open spec fn sep_link() -> Seq<char> {
    ",\"link_id\":\""@
}

/// Separator between the link token value and the friendly-name value.
pub open spec fn sep_name() -> Seq<char> {
    ",\"friendly_name\":\""@
}

/// Separator between the friendly-name value and the creation timestamp.
pub open spec fn sep_created() -> Seq<char> {
    ",\"created_at\":"@
}

/// Whether a record view can come from an actual record: its timestamp fits
/// the machine representation.
pub open spec fn record_wf(r: RecordView) -> bool {
    i64::MIN <= r.created_at <= i64::MAX
}

/// The persisted rendering of one record.
pub open spec fn record_chars(r: RecordView) -> Seq<char> {
    rec_open() + escaped(r.id) + seq!['"'] + sep_link() + escaped(r.link_id) + seq!['"']
        + sep_name() + escaped(r.friendly_name) + seq!['"'] + sep_created() + int_chars(
        r.created_at,
    ) + seq!['}']
}

/// Parse one record starting at `i`: the record and the position just past
/// its closing brace.
pub open spec fn parse_record_at(s: Seq<char>, i: int) -> Option<(RecordView, int)> {
    if !lit_at(s, i, rec_open()) {
        None
    } else {
        match parse_qstr_body(s, i + rec_open().len()) {
            Some((id, e1)) => if lit_at(s, e1, sep_link()) {
                match parse_qstr_body(s, e1 + sep_link().len()) {
                    Some((lk, e2)) => if lit_at(s, e2, sep_name()) {
                        match parse_qstr_body(s, e2 + sep_name().len()) {
                            Some((nm, e3)) => if lit_at(s, e3, sep_created()) {
                                match parse_i64_at(s, e3 + sep_created().len()) {
                                    Some((ts, e4)) => if 0 <= e4 < s.len() && s[e4] == '}' {
                                        Some(
                                            (
                                                RecordView {
                                                    id: id,
                                                    link_id: lk,
                                                    friendly_name: nm,
                                                    created_at: ts as int,
                                                },
                                                e4 + 1,
                                            ),
                                        )
                                    } else {
                                        None
                                    },
                                    None => None,
                                }
                            } else {
                                None
                            },
                            None => None,
                        }
                    } else {
                        None
                    },
                    None => None,
                }
            } else {
                None
            },
            None => None,
        }
    }
}

/// Append the persisted rendering of `r` to `out`.
pub fn push_record(out: &mut Vec<char>, r: &LocalConnectionRecord)
    ensures
        final(out)@ == old(out)@ + record_chars(r@),
{
    push_lit(out, "{\"id\":\"");
    let idc = str_chars(r.id.as_str());
    push_escaped(out, &idc);
    out.push('"');
    push_lit(out, ",\"link_id\":\"");
    let lkc = str_chars(r.link_id.as_str());
    push_escaped(out, &lkc);
    out.push('"');
    push_lit(out, ",\"friendly_name\":\"");
    let nmc = str_chars(r.friendly_name.as_str());
    push_escaped(out, &nmc);
    out.push('"');
    push_lit(out, ",\"created_at\":");
    push_i64(out, r.created_at);
    out.push('}');
    proof {
        assert(final(out)@ =~= old(out)@ + record_chars(r@));
    }
}

/// Parsing the rendering of a record recovers the record and stops just past
/// its closing brace.
pub proof fn lemma_record_round_trip(s: Seq<char>, i: int, r: RecordView)
    requires
        record_wf(r),
        0 <= i,
        i + record_chars(r).len() <= s.len(),
        s.subrange(i, i + record_chars(r).len()) == record_chars(r),
    ensures
        parse_record_at(s, i) == Some((r, i + record_chars(r).len())),
{
    reveal_strlit("{\"id\":\"");
    reveal_strlit(",\"link_id\":\"");
    reveal_strlit(",\"friendly_name\":\"");
    reveal_strlit(",\"created_at\":");
    let t = record_chars(r);
    let e_id = escaped(r.id);
    let e_lk = escaped(r.link_id);
    let e_nm = escaped(r.friendly_name);
    let num = int_chars(r.created_at);
    let o1 = rec_open().len() as int;
    let o2 = o1 + e_id.len() + 1;
    let o3 = o2 + sep_link().len();
    let o4 = o3 + e_lk.len() + 1;
    let o5 = o4 + sep_name().len();
    let o6 = o5 + e_nm.len() + 1;
    let o7 = o6 + sep_created().len();
    let o8 = o7 + num.len();
    assert(t.len() == o8 + 1);
    assert(t.subrange(0, o1) =~= rec_open());
    assert(t.subrange(o1, o2) =~= e_id + seq!['"']);
    assert(t.subrange(o2, o3) =~= sep_link());
    assert(t.subrange(o3, o4) =~= e_lk + seq!['"']);
    assert(t.subrange(o4, o5) =~= sep_name());
    assert(t.subrange(o5, o6) =~= e_nm + seq!['"']);
    assert(t.subrange(o6, o7) =~= sep_created());
    assert(t.subrange(o7, o8) =~= num);
    assert(t.subrange(o8, o8 + 1) =~= seq!['}']);
    lemma_piece(s, i, t, 0, rec_open());
    lemma_piece(s, i, t, o1, e_id + seq!['"']);
    lemma_piece(s, i, t, o2, sep_link());
    lemma_piece(s, i, t, o3, e_lk + seq!['"']);
    lemma_piece(s, i, t, o4, sep_name());
    lemma_piece(s, i, t, o5, e_nm + seq!['"']);
    lemma_piece(s, i, t, o6, sep_created());
    lemma_piece(s, i, t, o7, num);
    lemma_piece(s, i, t, o8, seq!['}']);
    assert(s.subrange(i + o1, i + o1 + e_id.len() + 1) == e_id + seq!['"']);
    lemma_qstr_round_trip(s, i + o1, r.id);
    lemma_qstr_round_trip(s, i + o3, r.link_id);
    lemma_qstr_round_trip(s, i + o5, r.friendly_name);
    assert(s.subrange(i + o8, i + o8 + 1)[0] == s[i + o8]);
    assert(s[i + o8] == '}');
    assert(!crate::text::is_digit('}'));
    assert(s.subrange(i + o7, i + o7 + num.len()) == num);
    lemma_int_round_trip(s, i + o7, r.created_at as i64);
    assert(parse_record_at(s, i) == Some((r, i + t.len())));
}

/// Scan one record starting at `i`.
pub fn scan_record(s: &Vec<char>, i: usize) -> (r: Option<(LocalConnectionRecord, usize)>)
    ensures
        match r {
            Some(p) => parse_record_at(s@, i as int) == Some((p.0@, p.1 as int)) && i < p.1
                <= s@.len(),
            None => parse_record_at(s@, i as int) is None,
        },
{
    let n = s.len();
    proof {
        reveal_strlit("{\"id\":\"");
        reveal_strlit(",\"link_id\":\"");
        reveal_strlit(",\"friendly_name\":\"");
        reveal_strlit(",\"created_at\":");
        assert(rec_open().len() == 7);
        assert(sep_link().len() == 12);
        assert(sep_name().len() == 18);
        assert(sep_created().len() == 14);
    }
    if !match_at(s, i, "{\"id\":\"") {
        return None;
    }
    let j0 = i + 7;
    let (idv, e1) = match scan_qstr_body(s, j0) {
        Some(p) => p,
        None => {
            return None;
        },
    };
    if !match_at(s, e1, ",\"link_id\":\"") {
        return None;
    }
    let j1 = e1 + 12;
    let (lkv, e2) = match scan_qstr_body(s, j1) {
        Some(p) => p,
        None => {
            return None;
        },
    };
    if !match_at(s, e2, ",\"friendly_name\":\"") {
        return None;
    }
    let j2 = e2 + 18;
    let (nmv, e3) = match scan_qstr_body(s, j2) {
        Some(p) => p,
        None => {
            return None;
        },
    };
    if !match_at(s, e3, ",\"created_at\":") {
        return None;
    }
    let j3 = e3 + 14;
    let (ts, e4) = match scan_i64(s, j3) {
        Some(p) => p,
        None => {
            return None;
        },
    };
    if e4 < s.len() && s[e4] == '}' {
        let rec = LocalConnectionRecord {
            id: chars_string(&idv),
            link_id: chars_string(&lkv),
            friendly_name: chars_string(&nmv),
            created_at: ts,
        };
        proof {
            lemma_qstr_body_bounds(s@, j0 as int);
            lemma_qstr_body_bounds(s@, j1 as int);
            lemma_qstr_body_bounds(s@, j2 as int);
            crate::text::lemma_parse_i64_bounds(s@, j3 as int);
            assert(parse_record_at(s@, i as int) == Some((rec@, (e4 + 1) as int)));
        }
        Some((rec, e4 + 1))
    } else {
        None
    }
}

/// Views of a vector of records.
pub open spec fn views_of(rs: Seq<LocalConnectionRecord>) -> Seq<RecordView> {
    rs.map_values(|r: LocalConnectionRecord| r@)
}

/// Rendering of a collection after its first record: each further record
/// preceded by a comma, then the closing bracket.
pub open spec fn rest_chars(rs: Seq<RecordView>) -> Seq<char>
    decreases rs.len(),
{
    if rs.len() == 0 {
        seq![']']
    } else {
        seq![','] + record_chars(rs[0]) + rest_chars(rs.drop_first())
    }
}

/// The persisted rendering of a whole record collection.
pub open spec fn records_chars(rs: Seq<RecordView>) -> Seq<char> {
    if rs.len() == 0 {
        seq!['[', ']']
    } else {
        seq!['['] + record_chars(rs[0]) + rest_chars(rs.drop_first())
    }
}

/// Parse the remainder of a record collection from `i`: either the closing
/// bracket ending the input, or a comma and a further record.
pub open spec fn parse_records_rest(s: Seq<char>, i: int) -> Option<Seq<RecordView>>
    decreases s.len() - i,
{
    if i < 0 || i >= s.len() {
        None
    } else if s[i] == ']' {
        if i + 1 == s.len() {
            Some(Seq::<RecordView>::empty())
        } else {
            None
        }
    } else if s[i] == ',' {
        match parse_record_at(s, i + 1) {
            Some((r, e)) => if i + 1 < e <= s.len() {
                match parse_records_rest(s, e) {
                    Some(t) => Some(seq![r] + t),
                    None => None,
                }
            } else {
                None
            },
            None => None,
        }
    } else {
        None
    }
}

/// Parse a whole record collection; the rendering must span the entire input.
pub open spec fn parse_records(s: Seq<char>) -> Option<Seq<RecordView>> {
    if s.len() < 2 || s[0] != '[' {
        None
    } else if s[1] == ']' {
        if s.len() == 2 {
            Some(Seq::<RecordView>::empty())
        } else {
            None
        }
    } else {
        match parse_record_at(s, 1) {
            Some((r, e)) => if 1 < e <= s.len() {
                match parse_records_rest(s, e) {
                    Some(t) => Some(seq![r] + t),
                    None => None,
                }
            } else {
                None
            },
            None => None,
        }
    }
}

/// Parsing the rendering of a collection's tail recovers its records.
pub proof fn lemma_rest_round_trip(s: Seq<char>, i: int, rs: Seq<RecordView>)
    requires
        forall|k: int| 0 <= k < rs.len() ==> record_wf(#[trigger] rs[k]),
        0 <= i,
        i + rest_chars(rs).len() == s.len(),
        s.subrange(i, s.len() as int) == rest_chars(rs),
    ensures
        parse_records_rest(s, i) == Some(rs),
    decreases rs.len(),
{
    let t = rest_chars(rs);
    assert(s[i] == t[0]);
    if rs.len() == 0 {
        assert(s[i] == ']');
        assert(rs =~= Seq::<RecordView>::empty());
    } else {
        let r0 = rs[0];
        let rc = record_chars(r0);
        assert(s[i] == ',');
        assert(t.subrange(1, 1 + rc.len() as int) =~= rc);
        lemma_piece(s, i, t, 1, rc);
        lemma_record_round_trip(s, i + 1, r0);
        let e = i + 1 + rc.len() as int;
        assert(s.subrange(e, s.len() as int) =~= rest_chars(rs.drop_first())) by {
            let inner = s.subrange(e, s.len() as int);
            let rest = rest_chars(rs.drop_first());
            assert forall|k: int| 0 <= k < inner.len() implies inner[k] == rest[k] by {
                assert(inner[k] == s[e + k]);
                assert(s[e + k] == t[e + k - i]);
                assert(t[1 + rc.len() + k] == rest[k]);
            }
        }
        lemma_rest_round_trip(s, e, rs.drop_first());
        assert(seq![r0] + rs.drop_first() =~= rs);
        assert(',' != ']');
    }
}

/// Parsing the rendering of a record collection recovers exactly its records.
pub proof fn lemma_records_round_trip(rs: Seq<RecordView>)
    requires
        forall|k: int| 0 <= k < rs.len() ==> record_wf(#[trigger] rs[k]),
    ensures
        parse_records(records_chars(rs)) == Some(rs),
{
    let s = records_chars(rs);
    if rs.len() == 0 {
        assert(s[0] == '[' && s[1] == ']' && s.len() == 2);
        assert(rs =~= Seq::<RecordView>::empty());
    } else {
        reveal_strlit("{\"id\":\"");
        let r0 = rs[0];
        let rc = record_chars(r0);
        assert(s.len() == 1 + rc.len() + rest_chars(rs.drop_first()).len());
        assert(s[0] == '[');
        assert(s.subrange(0, s.len() as int) =~= s);
        assert(s.subrange(1, 1 + rc.len() as int) =~= rc);
        lemma_record_round_trip(s, 1, r0);
        assert(s[1] == rc[0]);
        assert(rc[0] == rec_open()[0]);
        assert(s[1] == '{');
        let e = 1 + rc.len() as int;
        assert(s.subrange(e, s.len() as int) =~= rest_chars(rs.drop_first()));
        lemma_rest_round_trip(s, e, rs.drop_first());
        assert(seq![r0] + rs.drop_first() =~= rs);
    }
}

/// Append the rendering of everything after the first record to `out`.
fn push_rest(out: &mut Vec<char>, recs: &Vec<LocalConnectionRecord>, i: usize)
    requires
        1 <= i <= recs@.len(),
    ensures
        final(out)@ == old(out)@ + rest_chars(views_of(recs@).skip(i as int)),
    decreases recs@.len() - i,
{
    if i == recs.len() {
        out.push(']');
        proof {
            assert(views_of(recs@).skip(i as int) =~= Seq::<RecordView>::empty());
            assert(final(out)@ =~= old(out)@ + rest_chars(Seq::<RecordView>::empty()));
        }
    } else {
        out.push(',');
        push_record(out, &recs[i]);
        push_rest(out, recs, i + 1);
        proof {
            let vs = views_of(recs@).skip(i as int);
            assert(vs[0] == recs@[i as int]@);
            assert(vs.drop_first() =~= views_of(recs@).skip(i + 1));
            assert(final(out)@ =~= old(out)@ + rest_chars(vs));
        }
    }
}

/// Render a record collection as its persisted form.
pub fn encode_records(recs: &Vec<LocalConnectionRecord>) -> (r: String)
    ensures
        r@ == records_chars(views_of(recs@)),
{
    let mut out: Vec<char> = Vec::new();
    out.push('[');
    if recs.len() == 0 {
        out.push(']');
        proof {
            assert(views_of(recs@).len() == 0);
            assert(out@ =~= records_chars(views_of(recs@)));
        }
    } else {
        push_record(&mut out, &recs[0]);
        push_rest(&mut out, recs, 1);
        proof {
            let vs = views_of(recs@);
            assert(vs[0] == recs@[0]@);
            assert(vs.drop_first() =~= vs.skip(1));
            assert(out@ =~= records_chars(vs));
        }
    }
    chars_string(&out)
}

/// A partial collection parse continued after already-decoded records.
pub open spec fn recs_cont(res: Option<Seq<RecordView>>, pre: Seq<RecordView>) -> Option<
    Seq<RecordView>,
> {
    match res {
        Some(t) => Some(pre + t),
        None => None,
    }
}

/// Decode a persisted record collection; `None` when the blob is not exactly
/// a rendering this codec produces.
pub fn decode_records(blob: &str) -> (r: Option<Vec<LocalConnectionRecord>>)
    ensures
        match r {
            Some(v) => parse_records(blob@) == Some(views_of(v@)),
            None => parse_records(blob@) is None,
        },
{
    let s = str_chars(blob);
    let n = s.len();
    if n < 2 {
        return None;
    }
    if s[0] != '[' {
        return None;
    }
    let mut out: Vec<LocalConnectionRecord> = Vec::new();
    if s[1] == ']' {
        if n == 2 {
            proof {
                assert(views_of(out@) =~= Seq::<RecordView>::empty());
            }
            return Some(out);
        } else {
            return None;
        }
    }
    let (r0, e0) = match scan_record(&s, 1) {
        Some(p) => p,
        None => {
            return None;
        },
    };
    out.push(r0);
    proof {
        assert(views_of(out@) =~= seq![r0@]);
    }
    let mut e = e0;
    loop
        invariant
            1 < e <= n,
            n == s@.len(),
            blob@ == s@,
            parse_records(s@) == recs_cont(parse_records_rest(s@, e as int), views_of(out@)),
        decreases n - e,
    {
        if e == n {
            return None;
        }
        let c = s[e];
        if c == ']' {
            if e + 1 == n {
                proof {
                    assert(parse_records_rest(s@, e as int) == Some(Seq::<RecordView>::empty()));
                    assert(views_of(out@) + Seq::<RecordView>::empty() =~= views_of(out@));
                }
                return Some(out);
            } else {
                return None;
            }
        } else if c == ',' {
            let (rk, ek) = match scan_record(&s, e + 1) {
                Some(p) => p,
                None => {
                    return None;
                },
            };
            let ghost pre = views_of(out@);
            out.push(rk);
            proof {
                assert(views_of(out@) =~= pre + seq![rk@]);
                if parse_records_rest(s@, ek as int) is Some {
                    let t = parse_records_rest(s@, ek as int)->Some_0;
                    assert(pre + (seq![rk@] + t) =~= (pre + seq![rk@]) + t);
                }
            }
            e = ek;
        } else {
            return None;
        }
    }
}

/// Separator inside a name-index entry: the colon and the opening quote of
/// the value, standing just past the key's closing quote.
pub open spec fn pair_sep() -> Seq<char> {
    ":\""@
}

/// The persisted rendering of one name-index entry.
pub open spec fn pair_chars(k: Seq<char>, v: Seq<char>) -> Seq<char> {
    seq!['"'] + escaped(k) + seq!['"'] + pair_sep() + escaped(v) + seq!['"']
}

/// Parse one name-index entry starting at `i`.
pub open spec fn parse_pair_at(s: Seq<char>, i: int) -> Option<((Seq<char>, Seq<char>), int)> {
    if 0 <= i < s.len() && s[i] == '"' {
        match parse_qstr_body(s, i + 1) {
            Some((k, e1)) => if lit_at(s, e1, pair_sep()) {
                match parse_qstr_body(s, e1 + pair_sep().len()) {
                    Some((v, e2)) => Some(((k, v), e2)),
                    None => None,
                }
            } else {
                None
            },
            None => None,
        }
    } else {
        None
    }
}

/// Views of a vector of name-index entries.
pub open spec fn pairs_of(ps: Seq<(String, String)>) -> Seq<(Seq<char>, Seq<char>)> {
    ps.map_values(|p: (String, String)| (p.0@, p.1@))
}

/// Rendering of a name index after its first entry.
pub open spec fn names_rest_chars(ps: Seq<(Seq<char>, Seq<char>)>) -> Seq<char>
    decreases ps.len(),
{
    if ps.len() == 0 {
        seq!['}']
    } else {
        seq![','] + pair_chars(ps[0].0, ps[0].1) + names_rest_chars(ps.drop_first())
    }
}

/// The persisted rendering of a whole name index.
pub open spec fn names_chars(ps: Seq<(Seq<char>, Seq<char>)>) -> Seq<char> {
    if ps.len() == 0 {
        seq!['{', '}']
    } else {
        seq!['{'] + pair_chars(ps[0].0, ps[0].1) + names_rest_chars(ps.drop_first())
    }
}

/// Parse the remainder of a name index from `i`.
pub open spec fn parse_names_rest(s: Seq<char>, i: int) -> Option<Seq<(Seq<char>, Seq<char>)>>
    decreases s.len() - i,
{
    if i < 0 || i >= s.len() {
        None
    } else if s[i] == '}' {
        if i + 1 == s.len() {
            Some(Seq::<(Seq<char>, Seq<char>)>::empty())
        } else {
            None
        }
    } else if s[i] == ',' {
        match parse_pair_at(s, i + 1) {
            Some((p, e)) => if i + 1 < e <= s.len() {
                match parse_names_rest(s, e) {
                    Some(t) => Some(seq![p] + t),
                    None => None,
                }
            } else {
                None
            },
            None => None,
        }
    } else {
        None
    }
}

/// Parse a whole name index; the rendering must span the entire input.
pub open spec fn parse_names(s: Seq<char>) -> Option<Seq<(Seq<char>, Seq<char>)>> {
    if s.len() < 2 || s[0] != '{' {
        None
    } else if s[1] == '}' {
        if s.len() == 2 {
            Some(Seq::<(Seq<char>, Seq<char>)>::empty())
        } else {
            None
        }
    } else {
        match parse_pair_at(s, 1) {
            Some((p, e)) => if 1 < e <= s.len() {
                match parse_names_rest(s, e) {
                    Some(t) => Some(seq![p] + t),
                    None => None,
                }
            } else {
                None
            },
            None => None,
        }
    }
}

/// Parsing the rendering of a name-index entry recovers it.
pub proof fn lemma_pair_round_trip(s: Seq<char>, i: int, k: Seq<char>, v: Seq<char>)
    requires
        0 <= i,
        i + pair_chars(k, v).len() <= s.len(),
        s.subrange(i, i + pair_chars(k, v).len()) == pair_chars(k, v),
    ensures
        parse_pair_at(s, i) == Some(((k, v), i + pair_chars(k, v).len())),
{
    reveal_strlit(":\"");
    let t = pair_chars(k, v);
    let a = escaped(k).len() as int;
    let b = escaped(v).len() as int;
    assert(t.len() == a + b + 5);
    assert(t.subrange(0, 1) =~= seq!['"']);
    assert(t.subrange(1, a + 2) =~= escaped(k) + seq!['"']);
    assert(t.subrange(a + 2, a + 4) =~= pair_sep());
    assert(t.subrange(a + 4, a + b + 5) =~= escaped(v) + seq!['"']);
    lemma_piece(s, i, t, 0, seq!['"']);
    lemma_piece(s, i, t, 1, escaped(k) + seq!['"']);
    lemma_piece(s, i, t, a + 2, pair_sep());
    lemma_piece(s, i, t, a + 4, escaped(v) + seq!['"']);
    assert(s.subrange(i, i + 1)[0] == s[i]);
    assert(s[i] == '"');
    lemma_qstr_round_trip(s, i + 1, k);
    lemma_qstr_round_trip(s, i + a + 4, v);
}

/// Parsing the rendering of a name index's tail recovers its entries.
pub proof fn lemma_names_rest_round_trip(s: Seq<char>, i: int, ps: Seq<(Seq<char>, Seq<char>)>)
    requires
        0 <= i,
        i + names_rest_chars(ps).len() == s.len(),
        s.subrange(i, s.len() as int) == names_rest_chars(ps),
    ensures
        parse_names_rest(s, i) == Some(ps),
    decreases ps.len(),
{
    let t = names_rest_chars(ps);
    assert(s[i] == t[0]);
    if ps.len() == 0 {
        assert(s[i] == '}');
        assert(ps =~= Seq::<(Seq<char>, Seq<char>)>::empty());
    } else {
        let p0 = ps[0];
        let pc = pair_chars(p0.0, p0.1);
        assert(s[i] == ',');
        assert(t.subrange(1, 1 + pc.len() as int) =~= pc);
        lemma_piece(s, i, t, 1, pc);
        lemma_pair_round_trip(s, i + 1, p0.0, p0.1);
        let e = i + 1 + pc.len() as int;
        assert(s.subrange(e, s.len() as int) =~= names_rest_chars(ps.drop_first())) by {
            let inner = s.subrange(e, s.len() as int);
            let rest = names_rest_chars(ps.drop_first());
            assert forall|q: int| 0 <= q < inner.len() implies inner[q] == rest[q] by {
                assert(inner[q] == s[e + q]);
                assert(s[e + q] == t[e + q - i]);
                assert(t[1 + pc.len() + q] == rest[q]);
            }
        }
        lemma_names_rest_round_trip(s, e, ps.drop_first());
        assert((p0.0, p0.1) == p0);
        assert(seq![p0] + ps.drop_first() =~= ps);
    }
}

/// Parsing the rendering of a name index recovers exactly its entries.
pub proof fn lemma_names_round_trip(ps: Seq<(Seq<char>, Seq<char>)>)
    ensures
        parse_names(names_chars(ps)) == Some(ps),
{
    let s = names_chars(ps);
    if ps.len() == 0 {
        assert(s[0] == '{' && s[1] == '}' && s.len() == 2);
        assert(ps =~= Seq::<(Seq<char>, Seq<char>)>::empty());
    } else {
        let p0 = ps[0];
        let pc = pair_chars(p0.0, p0.1);
        assert(s[0] == '{');
        assert(s.subrange(0, s.len() as int) =~= s);
        assert(s.subrange(1, 1 + pc.len() as int) =~= pc);
        lemma_pair_round_trip(s, 1, p0.0, p0.1);
        assert(s[1] == pc[0]);
        assert(s[1] == '"');
        let e = 1 + pc.len() as int;
        assert(s.subrange(e, s.len() as int) =~= names_rest_chars(ps.drop_first()));
        lemma_names_rest_round_trip(s, e, ps.drop_first());
        assert((p0.0, p0.1) == p0);
        assert(seq![p0] + ps.drop_first() =~= ps);
    }
}

/// Append the rendering of one name-index entry to `out`.
fn push_pair(out: &mut Vec<char>, k: &String, v: &String)
    ensures
        final(out)@ == old(out)@ + pair_chars(k@, v@),
{
    out.push('"');
    let kc = str_chars(k.as_str());
    push_escaped(out, &kc);
    out.push('"');
    push_lit(out, ":\"");
    let vc = str_chars(v.as_str());
    push_escaped(out, &vc);
    out.push('"');
    proof {
        assert(final(out)@ =~= old(out)@ + pair_chars(k@, v@));
    }
}

/// Append the rendering of everything after the first entry to `out`.
fn push_names_rest(out: &mut Vec<char>, ps: &Vec<(String, String)>, i: usize)
    requires
        1 <= i <= ps@.len(),
    ensures
        final(out)@ == old(out)@ + names_rest_chars(pairs_of(ps@).skip(i as int)),
    decreases ps@.len() - i,
{
    if i == ps.len() {
        out.push('}');
        proof {
            assert(pairs_of(ps@).skip(i as int) =~= Seq::<(Seq<char>, Seq<char>)>::empty());
            assert(final(out)@ =~= old(out)@ + names_rest_chars(
                Seq::<(Seq<char>, Seq<char>)>::empty(),
            ));
        }
    } else {
        out.push(',');
        push_pair(out, &ps[i].0, &ps[i].1);
        push_names_rest(out, ps, i + 1);
        proof {
            let vs = pairs_of(ps@).skip(i as int);
            assert(vs[0] == (ps@[i as int].0@, ps@[i as int].1@));
            assert(vs.drop_first() =~= pairs_of(ps@).skip(i + 1));
            assert(final(out)@ =~= old(out)@ + names_rest_chars(vs));
        }
    }
}

/// Render a name index as its persisted form.
pub fn encode_names(ps: &Vec<(String, String)>) -> (r: String)
    ensures
        r@ == names_chars(pairs_of(ps@)),
{
    let mut out: Vec<char> = Vec::new();
    out.push('{');
    if ps.len() == 0 {
        out.push('}');
        proof {
            assert(pairs_of(ps@).len() == 0);
            assert(out@ =~= names_chars(pairs_of(ps@)));
        }
    } else {
        push_pair(&mut out, &ps[0].0, &ps[0].1);
        push_names_rest(&mut out, ps, 1);
        proof {
            let vs = pairs_of(ps@);
            assert(vs[0] == (ps@[0].0@, ps@[0].1@));
            assert(vs.drop_first() =~= vs.skip(1));
            assert(out@ =~= names_chars(vs));
        }
    }
    chars_string(&out)
}

/// Scan one name-index entry starting at `i`.
fn scan_pair(s: &Vec<char>, i: usize) -> (r: Option<((String, String), usize)>)
    ensures
        match r {
            Some(p) => parse_pair_at(s@, i as int) == Some(((p.0.0@, p.0.1@), p.1 as int)) && i
                < p.1 <= s@.len(),
            None => parse_pair_at(s@, i as int) is None,
        },
{
    let n = s.len();
    if i >= n || s[i] != '"' {
        return None;
    }
    let (kv, e1) = match scan_qstr_body(s, i + 1) {
        Some(p) => p,
        None => {
            return None;
        },
    };
    if !match_at(s, e1, ":\"") {
        return None;
    }
    proof {
        reveal_strlit(":\"");
        assert(pair_sep().len() == 2);
    }
    let j1 = e1 + 2;
    let (vv, e2) = match scan_qstr_body(s, j1) {
        Some(p) => p,
        None => {
            return None;
        },
    };
    proof {
        lemma_qstr_body_bounds(s@, (i + 1) as int);
        lemma_qstr_body_bounds(s@, j1 as int);
    }
    Some(((chars_string(&kv), chars_string(&vv)), e2))
}

/// A partial name-index parse continued after already-decoded entries.
pub open spec fn pairs_cont(
    res: Option<Seq<(Seq<char>, Seq<char>)>>,
    pre: Seq<(Seq<char>, Seq<char>)>,
) -> Option<Seq<(Seq<char>, Seq<char>)>> {
    match res {
        Some(t) => Some(pre + t),
        None => None,
    }
}

/// Decode a persisted name index; `None` when the blob is not exactly a
/// rendering this codec produces.
pub fn decode_names(blob: &str) -> (r: Option<Vec<(String, String)>>)
    ensures
        match r {
            Some(v) => parse_names(blob@) == Some(pairs_of(v@)),
            None => parse_names(blob@) is None,
        },
{
    let s = str_chars(blob);
    let n = s.len();
    if n < 2 {
        return None;
    }
    if s[0] != '{' {
        return None;
    }
    let mut out: Vec<(String, String)> = Vec::new();
    if s[1] == '}' {
        if n == 2 {
            proof {
                assert(pairs_of(out@) =~= Seq::<(Seq<char>, Seq<char>)>::empty());
            }
            return Some(out);
        } else {
            return None;
        }
    }
    let (p0, e0) = match scan_pair(&s, 1) {
        Some(p) => p,
        None => {
            return None;
        },
    };
    out.push(p0);
    proof {
        assert(pairs_of(out@) =~= seq![(out@[0].0@, out@[0].1@)]);
    }
    let mut e = e0;
    loop
        invariant
            1 < e <= n,
            n == s@.len(),
            blob@ == s@,
            parse_names(s@) == pairs_cont(parse_names_rest(s@, e as int), pairs_of(out@)),
        decreases n - e,
    {
        if e == n {
            return None;
        }
        let c = s[e];
        if c == '}' {
            if e + 1 == n {
                proof {
                    assert(parse_names_rest(s@, e as int) == Some(
                        Seq::<(Seq<char>, Seq<char>)>::empty(),
                    ));
                    assert(pairs_of(out@) + Seq::<(Seq<char>, Seq<char>)>::empty() =~= pairs_of(
                        out@,
                    ));
                }
                return Some(out);
            } else {
                return None;
            }
        } else if c == ',' {
            let (pk, ek) = match scan_pair(&s, e + 1) {
                Some(p) => p,
                None => {
                    return None;
                },
            };
            let ghost pre = pairs_of(out@);
            let ghost pkv = (pk.0@, pk.1@);
            out.push(pk);
            proof {
                assert(pairs_of(out@) =~= pre + seq![pkv]);
                if parse_names_rest(s@, ek as int) is Some {
                    let t = parse_names_rest(s@, ek as int)->Some_0;
                    assert(pre + (seq![pkv] + t) =~= (pre + seq![pkv]) + t);
                }
            }
            e = ek;
        } else {
            return None;
        }
    }
}

} // verus!
