//! The wire format: reading a `Connection` out of the JSON document the
//! pairing service sends, with its fields in the order the service
//! serialises them. The parser accepts exactly that shape; anything else
//! yields `None` and the reply counts as malformed.

use vstd::prelude::*;
use crate::codec::{rec_open, sep_created, sep_link};
use crate::lifecycle::ConnectionStatus;
use crate::model::{Connection, ConnectionView};
use crate::text::{
    chars_string, lemma_qstr_body_bounds, lit_at, match_at, parse_i64_at, parse_qstr_body,
    scan_i64, scan_qstr_body, str_chars,
};

verus! {

/// Separator between the link token and the participant array.
pub open spec fn sep_players() -> Seq<char> {
    ",\"players\":["@
}

/// Separator between the creation timestamp and the status keyword. The
/// separator before the timestamp itself is the same key sequence the
/// cache's record format uses.
pub open spec fn sep_status() -> Seq<char> {
    ",\"status\":\""@
}

/// Separator between the status keyword and the expiry timestamp.
pub open spec fn sep_expires() -> Seq<char> {
    ",\"expires_at\":"@
}

/// The status a keyword names, if any.
pub open spec fn status_of(s: Seq<char>) -> Option<ConnectionStatus> {
    if s == "Pending"@ {
        Some(ConnectionStatus::Pending)
    } else if s == "Active"@ {
        Some(ConnectionStatus::Active)
    } else if s == "Expired"@ {
        Some(ConnectionStatus::Expired)
    } else {
        None
    }
}

/// Parse the remainder of the participant array from `i`: either the closing
/// bracket, or a comma and a further quoted participant id.
pub open spec fn parse_players_rest(s: Seq<char>, i: int) -> Option<(Seq<Seq<char>>, int)>
    decreases s.len() - i,
{
    if i < 0 || i >= s.len() {
        None
    } else if s[i] == ']' {
        Some((Seq::<Seq<char>>::empty(), i + 1))
    } else if s[i] == ',' {
        if i + 1 < s.len() && s[i + 1] == '"' {
            match parse_qstr_body(s, i + 2) {
                Some((p, e)) => if i + 2 < e <= s.len() {
                    match parse_players_rest(s, e) {
                        Some((t, e2)) => Some((seq![p] + t, e2)),
                        None => None,
                    }
                } else {
                    None
                },
                None => None,
            }
        } else {
            None
        }
    } else {
        None
    }
}

/// Parse the participant array from `i` (just past the opening bracket).
pub open spec fn parse_players(s: Seq<char>, i: int) -> Option<(Seq<Seq<char>>, int)> {
    if i < 0 || i >= s.len() {
        None
    } else if s[i] == ']' {
        Some((Seq::<Seq<char>>::empty(), i + 1))
    } else if s[i] == '"' {
        match parse_qstr_body(s, i + 1) {
            Some((p, e)) => if i + 1 < e <= s.len() {
                match parse_players_rest(s, e) {
                    Some((t, e2)) => Some((seq![p] + t, e2)),
                    None => None,
                }
            } else {
                None
            },
            None => None,
        }
    } else {
        None
    }
}

/// Parse a whole `Connection` document; the rendering must span the input.
pub open spec fn parse_connection(s: Seq<char>) -> Option<ConnectionView> {
    if !lit_at(s, 0, rec_open()) {
        None
    } else {
        match parse_qstr_body(s, rec_open().len() as int) {
            Some((id, e1)) => if lit_at(s, e1, sep_link()) {
                match parse_qstr_body(s, e1 + sep_link().len()) {
                    Some((lk, e2)) => if lit_at(s, e2, sep_players()) {
                        match parse_players(s, e2 + sep_players().len()) {
                            Some((pls, e3)) => if lit_at(s, e3, sep_created()) {
                                match parse_i64_at(s, e3 + sep_created().len()) {
                                    Some((ca, e4)) => if lit_at(s, e4, sep_status()) {
                                        match parse_qstr_body(s, e4 + sep_status().len()) {
                                            Some((st, e5)) => match status_of(st) {
                                                Some(status) => if lit_at(s, e5, sep_expires()) {
                                                    match parse_i64_at(
                                                        s,
                                                        e5 + sep_expires().len(),
                                                    ) {
                                                        Some((ex, e6)) => if 0 <= e6 < s.len()
                                                            && s[e6] == '}' && e6 + 1 == s.len() {
                                                            Some(
                                                                ConnectionView {
                                                                    id: id,
                                                                    link_id: lk,
                                                                    players: pls,
                                                                    created_at: ca as int,
                                                                    status: status,
                                                                    expires_at: ex as int,
                                                                },
                                                            )
                                                        } else {
                                                            None
                                                        },
                                                        None => None,
                                                    }
                                                } else {
                                                    None
                                                },
                                                None => None,
                                            },
                                            None => None,
                                        }
                                    } else {
                                        None
                                    },
                                    None => None,
                                }
                            } else {
                                None
                            },
                            None => None,
                        }
                    } else {
                        None
                    },
                    None => None,
                }
            } else {
                None
            },
            None => None,
        }
    }
}

/// A partial participant-array parse continued after decoded participants.
pub open spec fn players_cont(res: Option<(Seq<Seq<char>>, int)>, pre: Seq<Seq<char>>) -> Option<
    (Seq<Seq<char>>, int),
> {
    match res {
        Some((t, e)) => Some((pre + t, e)),
        None => None,
    }
}

/// The character sequences of a vector of strings.
pub open spec fn strs_of(v: Seq<String>) -> Seq<Seq<char>> {
    v.map_values(|s: String| s@)
}

/// Scan the participant array from `i` (just past the opening bracket).
fn scan_players(s: &Vec<char>, i: usize) -> (r: Option<(Vec<String>, usize)>)
    requires
        i <= s@.len(),
    ensures
        match r {
            Some(p) => parse_players(s@, i as int) == Some((strs_of(p.0@), p.1 as int)) && p.1
                <= s@.len(),
            None => parse_players(s@, i as int) is None,
        },
{
    let n = s.len();
    if i >= n {
        return None;
    }
    let mut out: Vec<String> = Vec::new();
    if s[i] == ']' {
        proof {
            assert(strs_of(out@) =~= Seq::<Seq<char>>::empty());
        }
        return Some((out, i + 1));
    }
    if s[i] != '"' {
        return None;
    }
    let (p0, e0) = match scan_qstr_body(s, i + 1) {
        Some(p) => p,
        None => {
            return None;
        },
    };
    proof {
        lemma_qstr_body_bounds(s@, i + 1);
    }
    out.push(chars_string(&p0));
    proof {
        assert(strs_of(out@) =~= seq![p0@]);
    }
    let mut e = e0;
    loop
        invariant
            i + 1 < e <= n,
            n == s@.len(),
            parse_players(s@, i as int) == players_cont(
                parse_players_rest(s@, e as int),
                strs_of(out@),
            ),
        decreases n - e,
    {
        if e == n {
            return None;
        }
        let c = s[e];
        if c == ']' {
            proof {
                assert(strs_of(out@) + Seq::<Seq<char>>::empty() =~= strs_of(out@));
            }
            return Some((out, e + 1));
        } else if c == ',' {
            if e + 1 < n && s[e + 1] == '"' {
                let (pk, ek) = match scan_qstr_body(s, e + 2) {
                    Some(p) => p,
                    None => {
                        return None;
                    },
                };
                proof {
                    lemma_qstr_body_bounds(s@, e + 2);
                }
                let ghost pre = strs_of(out@);
                out.push(chars_string(&pk));
                proof {
                    assert(strs_of(out@) =~= pre + seq![pk@]);
                    if parse_players_rest(s@, ek as int) is Some {
                        let t = parse_players_rest(s@, ek as int)->Some_0.0;
                        assert(pre + (seq![pk@] + t) =~= (pre + seq![pk@]) + t);
                    }
                }
                e = ek;
            } else {
                return None;
            }
        } else {
            return None;
        }
    }
}

/// Decode a `Connection` from a pairing-service reply body; `None` when the
/// body is not exactly the shape the service serialises.
pub fn decode_connection(body: &str) -> (r: Option<Connection>)
    ensures
        match r {
            Some(c) => parse_connection(body@) == Some(c@),
            None => parse_connection(body@) is None,
        },
{
    let s = str_chars(body);
    let n = s.len();
    proof {
        reveal_strlit("{\"id\":\"");
        reveal_strlit(",\"link_id\":\"");
        reveal_strlit(",\"players\":[");
        reveal_strlit(",\"created_at\":");
        reveal_strlit(",\"status\":\"");
        reveal_strlit(",\"expires_at\":");
        assert(rec_open().len() == 7);
        assert(sep_link().len() == 12);
        assert(sep_players().len() == 12);
        assert(sep_created().len() == 14);
        assert(sep_status().len() == 11);
        assert(sep_expires().len() == 14);
    }
    if !match_at(&s, 0, "{\"id\":\"") {
        return None;
    }
    let (idv, e1) = match scan_qstr_body(&s, 7) {
        Some(p) => p,
        None => {
            return None;
        },
    };
    if !match_at(&s, e1, ",\"link_id\":\"") {
        return None;
    }
    let (lkv, e2) = match scan_qstr_body(&s, e1 + 12) {
        Some(p) => p,
        None => {
            return None;
        },
    };
    if !match_at(&s, e2, ",\"players\":[") {
        return None;
    }
    let (players, e3) = match scan_players(&s, e2 + 12) {
        Some(p) => p,
        None => {
            return None;
        },
    };
    if !match_at(&s, e3, ",\"created_at\":") {
        return None;
    }
    let (created_at, e4) = match scan_i64(&s, e3 + 14) {
        Some(p) => p,
        None => {
            return None;
        },
    };
    if !match_at(&s, e4, ",\"status\":\"") {
        return None;
    }
    let (stv, e5) = match scan_qstr_body(&s, e4 + 11) {
        Some(p) => p,
        None => {
            return None;
        },
    };
    let status = if match_chars(&stv, "Pending") {
        ConnectionStatus::Pending
    } else if match_chars(&stv, "Active") {
        ConnectionStatus::Active
    } else if match_chars(&stv, "Expired") {
        ConnectionStatus::Expired
    } else {
        return None;
    };
    if !match_at(&s, e5, ",\"expires_at\":") {
        return None;
    }
    let (expires_at, e6) = match scan_i64(&s, e5 + 14) {
        Some(p) => p,
        None => {
            return None;
        },
    };
    if e6 < n && e6 + 1 == n && s[e6] == '}' {
        let c = Connection {
            id: chars_string(&idv),
            link_id: chars_string(&lkv),
            players,
            created_at,
            status,
            expires_at,
        };
        proof {
            assert(c@.players =~= strs_of(c.players@));
        }
        Some(c)
    } else {
        None
    }
}

/// Whether the characters of `v` are exactly those of `lit`.
fn match_chars(v: &Vec<char>, lit: &str) -> (r: bool)
    ensures
        r == (v@ == lit@),
{
    let m = lit.unicode_len();
    if v.len() != m {
        return false;
    }
    let r = match_at(v, 0, lit);
    proof {
        if r {
            assert(v@.subrange(0, m as int) =~= v@);
        } else {
            if v@ == lit@ {
                assert(v@.subrange(0, m as int) =~= lit@);
            }
        }
    }
    r
}

} // verus!
