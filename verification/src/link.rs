//! The link codec: reading the pairing token out of a URL query string, and
//! building the shareable URL that carries one.
//!
//! The token travels as the `link` query parameter. Extraction never fails on
//! malformed input: whatever does not parse as a `link` pair simply yields no
//! token. Tokens are opaque and are taken verbatim from the query string.

use vstd::prelude::*;
use vstd::string::StringExecFns;
use crate::text::{chars_string, copy_range, match_at, str_chars};

verus! {

/// First position at or after `i` holding `'&'`, or the end of the input.
pub open spec fn amp_end(q: Seq<char>, i: int) -> int
    decreases q.len() - i,
{
    if 0 <= i < q.len() && q[i] != '&' {
        amp_end(q, i + 1)
    } else {
        i
    }
}

/// First position in `[i, e)` holding `'='`, or `e` when there is none.
pub open spec fn eq_end(q: Seq<char>, i: int, e: int) -> int
    decreases e - i,
{
    if 0 <= i < e <= q.len() && q[i] != '=' {
        eq_end(q, i + 1, e)
    } else {
        i
    }
}

/// The value of the first `link` pair at or after position `i`: each pair
/// runs to the next `'&'`; its key is what precedes the first `'='`, and its
/// value what follows (empty when the pair has no `'='`).
pub open spec fn find_link_at(q: Seq<char>, i: int) -> Option<Seq<char>>
    decreases q.len() - i,
{
    if !(0 <= i <= q.len()) {
        None
    } else {
        let e = amp_end(q, i);
        let m = eq_end(q, i, e);
        if i <= m <= e <= q.len() && q.subrange(i, m) == "link"@ {
            Some(
                if m == e {
                    Seq::<char>::empty()
                } else {
                    q.subrange(m + 1, e)
                },
            )
        } else if i <= e < q.len() {
            find_link_at(q, e + 1)
        } else {
            None
        }
    }
}

/// The pairing token carried by a query string: the value of its first
/// `link` parameter, after a leading `'?'` if one is present; `None` when
/// the input is empty or carries no such parameter.
pub open spec fn spec_extract(q: Seq<char>) -> Option<Seq<char>> {
    if q.len() == 0 {
        None
    } else if q[0] == '?' {
        find_link_at(q, 1)
    } else {
        find_link_at(q, 0)
    }
}

/// A run without `'&'` up to `e`, with `'&'` or the end there, ends at `e`.
proof fn lemma_amp_end_of_run(q: Seq<char>, i: int, e: int)
    requires
        0 <= i <= e <= q.len(),
        forall|k: int| i <= k < e ==> #[trigger] q[k] != '&',
        e == q.len() || q[e] == '&',
    ensures
        amp_end(q, i) == e,
    decreases e - i,
{
    if i < e {
        lemma_amp_end_of_run(q, i + 1, e);
    }
}

/// A run without `'='` up to `m`, with `'='` or the pair's end there, puts
/// the first `'='` at `m`.
proof fn lemma_eq_end_of_run(q: Seq<char>, i: int, e: int, m: int)
    requires
        0 <= i <= m <= e <= q.len(),
        forall|k: int| i <= k < m ==> #[trigger] q[k] != '=',
        m == e || q[m] == '=',
    ensures
        eq_end(q, i, e) == m,
    decreases m - i,
{
    if i < m {
        lemma_eq_end_of_run(q, i + 1, e, m);
    }
}

/// Extract the pairing token from a URL query string: the value of the
/// reserved `link` parameter, or `None` when the input is empty or no such
/// parameter is present. Malformed input yields `None`, never an error.
pub fn extract_link_id_from_search(search: &str) -> (r: Option<String>)
    ensures
        match r {
            Some(v) => spec_extract(search@) == Some(v@),
            None => spec_extract(search@) is None,
        },
{
    let q = str_chars(search);
    let n = q.len();
    if n == 0 {
        return None;
    }
    let mut s: usize = if q[0] == '?' {
        1
    } else {
        0
    };
    loop
        invariant
            0 < n == q@.len(),
            0 <= s <= n,
            search@ == q@,
            spec_extract(search@) == find_link_at(q@, s as int),
        decreases n - s,
    {
        let mut e: usize = s;
        while e < n && q[e] != '&'
            invariant
                s <= e <= n,
                n == q@.len(),
                forall|k: int| s <= k < e ==> #[trigger] q@[k] != '&',
            decreases n - e,
        {
            e = e + 1;
        }
        proof {
            lemma_amp_end_of_run(q@, s as int, e as int);
        }
        let mut m: usize = s;
        while m < e && q[m] != '='
            invariant
                s <= m <= e <= n,
                n == q@.len(),
                forall|k: int| s <= k < m ==> #[trigger] q@[k] != '=',
            decreases e - m,
        {
            m = m + 1;
        }
        proof {
            lemma_eq_end_of_run(q@, s as int, e as int, m as int);
        }
        if m - s == 4 && match_at(&q, s, "link") {
            proof {
                reveal_strlit("link");
                assert(q@.subrange(s as int, m as int) =~= "link"@);
            }
            let v = if m == e {
                Vec::<char>::new()
            } else {
                copy_range(&q, m + 1, e)
            };
            proof {
                if m == e {
                    assert(v@ =~= Seq::<char>::empty());
                }
            }
            return Some(chars_string(&v));
        }
        proof {
            reveal_strlit("link");
            if q@.subrange(s as int, m as int) == "link"@ {
                assert(m - s == 4);
            }
        }
        if e == n {
            return None;
        }
        s = e + 1;
    }
}

/// Build the shareable URL that carries a pairing token: the origin, the
/// path, and the token as the `link` query parameter.
pub fn build_shareable_url(origin: &str, path: &str, token: &str) -> (r: String)
    ensures
        r@ == origin@ + path@ + "?link="@ + token@,
{
    let mut out = String::new();
    out.append(origin);
    out.append(path);
    out.append("?link=");
    out.append(token);
    out
}

} // verus!
