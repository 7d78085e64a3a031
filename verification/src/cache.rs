//! The local connection cache: the collection of persisted records, keyed by
//! connection id, and the friendly-name index beside it. The cache is the only
//! writer of its persisted blobs; reading them back tolerates corruption by
//! treating a malformed blob as empty.

use vstd::prelude::*;
use crate::codec::{
    decode_names, decode_records, encode_names, encode_records, lemma_names_round_trip,
    lemma_records_round_trip, names_chars, pairs_of, parse_names, parse_records, record_wf,
    records_chars, views_of,
};
use crate::model::{LocalConnectionRecord, RecordView};
use crate::text::string_eq;

verus! {

/// No two records carry the same id.
pub open spec fn unique_ids(rs: Seq<RecordView>) -> bool {
    forall|a: int, b: int| 0 <= a < b < rs.len() ==> (#[trigger] rs[a].id) != (#[trigger] rs[b].id)
}

/// No two name-index entries carry the same key.
pub open spec fn unique_keys(ps: Seq<(Seq<char>, Seq<char>)>) -> bool {
    forall|a: int, b: int| 0 <= a < b < ps.len() ==> (#[trigger] ps[a].0) != (#[trigger] ps[b].0)
}

/// Whether some record carries the given id.
pub open spec fn has_id(rs: Seq<RecordView>, id: Seq<char>) -> bool {
    exists|j: int| 0 <= j < rs.len() && #[trigger] rs[j].id == id
}

/// The first record carrying the given id, if any.
pub open spec fn lookup_record(rs: Seq<RecordView>, id: Seq<char>) -> Option<RecordView>
    decreases rs.len(),
{
    if rs.len() == 0 {
        None
    } else if rs[0].id == id {
        Some(rs[0])
    } else {
        lookup_record(rs.drop_first(), id)
    }
}

/// The name filed under the given id, if any.
pub open spec fn name_of(ps: Seq<(Seq<char>, Seq<char>)>, id: Seq<char>) -> Option<Seq<char>>
    decreases ps.len(),
{
    if ps.len() == 0 {
        None
    } else if ps[0].0 == id {
        Some(ps[0].1)
    } else {
        name_of(ps.drop_first(), id)
    }
}

/// Insert `r`, or replace the record already carrying its id.
pub open spec fn spec_upsert(rs: Seq<RecordView>, r: RecordView) -> Seq<RecordView>
    decreases rs.len(),
{
    if rs.len() == 0 {
        seq![r]
    } else if rs[0].id == r.id {
        seq![r] + rs.drop_first()
    } else {
        seq![rs[0]] + spec_upsert(rs.drop_first(), r)
    }
}

/// Drop every record carrying the given id.
pub open spec fn spec_remove(rs: Seq<RecordView>, id: Seq<char>) -> Seq<RecordView>
    decreases rs.len(),
{
    if rs.len() == 0 {
        rs
    } else if rs[0].id == id {
        spec_remove(rs.drop_first(), id)
    } else {
        seq![rs[0]] + spec_remove(rs.drop_first(), id)
    }
}

/// File `name` under `id`, replacing any earlier entry for `id`.
pub open spec fn spec_set_name(
    ps: Seq<(Seq<char>, Seq<char>)>,
    id: Seq<char>,
    name: Seq<char>,
) -> Seq<(Seq<char>, Seq<char>)>
    decreases ps.len(),
{
    if ps.len() == 0 {
        seq![(id, name)]
    } else if ps[0].0 == id {
        seq![(id, name)] + ps.drop_first()
    } else {
        seq![ps[0]] + spec_set_name(ps.drop_first(), id, name)
    }
}

/// Drop the name-index entry for the given id.
pub open spec fn spec_remove_name(
    ps: Seq<(Seq<char>, Seq<char>)>,
    id: Seq<char>,
) -> Seq<(Seq<char>, Seq<char>)>
    decreases ps.len(),
{
    if ps.len() == 0 {
        ps
    } else if ps[0].0 == id {
        spec_remove_name(ps.drop_first(), id)
    } else {
        seq![ps[0]] + spec_remove_name(ps.drop_first(), id)
    }
}

/// The local-store-backed cache of known connections and their friendly
/// names. Records are kept in insertion order; ids and name keys are unique.
pub struct ConnectionCache {
    records: Vec<LocalConnectionRecord>,
    names: Vec<(String, String)>,
}

impl ConnectionCache {
    /// The cached records, in insertion order.
    pub closed spec fn records_view(&self) -> Seq<RecordView> {
        views_of(self.records@)
    }

    /// The name index, in insertion order.
    pub closed spec fn names_view(&self) -> Seq<(Seq<char>, Seq<char>)> {
        pairs_of(self.names@)
    }

    /// Internal consistency: ids and name keys are unique.
    pub closed spec fn wf(&self) -> bool {
        unique_ids(self.records_view()) && unique_keys(self.names_view())
    }

    /// An empty cache.
    pub fn new() -> (c: Self)
        ensures
            c.wf(),
            c.records_view() == Seq::<RecordView>::empty(),
            c.names_view() == Seq::<(Seq<char>, Seq<char>)>::empty(),
    {
        let c = ConnectionCache { records: Vec::new(), names: Vec::new() };
        proof {
            assert(c.records_view() =~= Seq::<RecordView>::empty());
            assert(c.names_view() =~= Seq::<(Seq<char>, Seq<char>)>::empty());
        }
        c
    }

    /// All cached records, in insertion order.
    pub fn load(&self) -> (r: Vec<LocalConnectionRecord>)
        ensures
            views_of(r@) == self.records_view(),
    {
        let n = self.records.len();
        let mut r: Vec<LocalConnectionRecord> = Vec::new();
        let mut i: usize = 0;
        while i < n
            invariant
                i <= n,
                n == self.records@.len(),
                r@.len() == i,
                forall|k: int| 0 <= k < i ==> #[trigger] r@[k]@ == self.records@[k]@,
            decreases n - i,
        {
            r.push(self.records[i].clone());
            i = i + 1;
        }
        proof {
            assert(views_of(r@) =~= self.records_view());
        }
        r
    }

    /// Insert `r`, or replace the record already cached under its id; the
    /// name index is untouched. Repeating the call with the same record
    /// changes nothing further.
    pub fn upsert(&mut self, r: LocalConnectionRecord)
        requires
            old(self).wf(),
        ensures
            final(self).wf(),
            final(self).records_view() == spec_upsert(old(self).records_view(), r@),
            final(self).names_view() == old(self).names_view(),
    {
        proof {
            lemma_upsert_unique(old(self).records_view(), r@);
        }
        let n = self.records.len();
        let mut i: usize = 0;
        while i < n
            invariant
                i <= n,
                n == self.records@.len(),
                old(self).wf(),
                forall|k: int| 0 <= k < i ==> (#[trigger] views_of(self.records@)[k]).id != r@.id,
                self == old(self),
            decreases n - i,
        {
            if string_eq(&self.records[i].id, &r.id) {
                let ghost rs = self.records_view();
                self.records.remove(i);
                self.records.insert(i, r);
                proof {
                    lemma_upsert_unique(rs, r@);
                    assert(self.records_view() =~= rs.update(i as int, r@));
                    lemma_upsert_found(rs, r@, i as int);
                }
                return ;
            }
            i = i + 1;
        }
        let ghost rs = self.records_view();
        self.records.push(r);
        proof {
            assert(self.records_view() =~= rs.push(r@));
            lemma_upsert_absent(rs, r@);
        }
    }

    /// Delete the record cached under `id` and its friendly name. A second
    /// call for the same id changes nothing further.
    pub fn remove(&mut self, id: &String)
        requires
            old(self).wf(),
        ensures
            final(self).wf(),
            final(self).records_view() == spec_remove(old(self).records_view(), id@),
            final(self).names_view() == spec_remove_name(old(self).names_view(), id@),
    {
        proof {
            lemma_remove_unique(old(self).records_view(), id@);
            lemma_remove_name_unique(old(self).names_view(), id@);
        }
        let n = self.records.len();
        let mut kept: Vec<LocalConnectionRecord> = Vec::new();
        let mut i: usize = 0;
        proof {
            assert(self.records_view().subrange(0, 0) =~= Seq::<RecordView>::empty());
            assert(views_of(kept@) =~= Seq::<RecordView>::empty());
        }
        while i < n
            invariant
                i <= n,
                n == self.records@.len(),
                views_of(kept@) == spec_remove(
                    views_of(self.records@).subrange(0, i as int),
                    id@,
                ),
                self == old(self),
            decreases n - i,
        {
            let ghost pre = views_of(self.records@).subrange(0, i as int);
            let ghost cur = self.records@[i as int]@;
            proof {
                assert(views_of(self.records@).subrange(0, i + 1) =~= pre + seq![cur]);
                lemma_remove_app(pre, seq![cur], id@);
                assert(seq![cur].drop_first() =~= Seq::<RecordView>::empty());
                assert(spec_remove(Seq::<RecordView>::empty(), id@) =~= Seq::<RecordView>::empty());
                if cur.id == id@ {
                    assert(spec_remove(seq![cur], id@) =~= Seq::<RecordView>::empty());
                } else {
                    assert(spec_remove(seq![cur], id@) =~= seq![cur] + Seq::<RecordView>::empty());
                    assert(seq![cur] + Seq::<RecordView>::empty() =~= seq![cur]);
                }
            }
            if !string_eq(&self.records[i].id, id) {
                kept.push(self.records[i].clone());
                proof {
                    assert(views_of(kept@) =~= spec_remove(pre, id@) + seq![cur]);
                }
            }
            proof {
                assert(views_of(kept@) =~= spec_remove(
                    views_of(self.records@).subrange(0, i + 1),
                    id@,
                ));
            }
            i = i + 1;
        }
        proof {
            assert(views_of(self.records@).subrange(0, n as int) =~= views_of(self.records@));
        }
        self.records = kept;
        let m = self.names.len();
        let mut kept_names: Vec<(String, String)> = Vec::new();
        let mut j: usize = 0;
        proof {
            assert(pairs_of(self.names@).subrange(0, 0) =~= Seq::<(Seq<char>, Seq<char>)>::empty());
            assert(pairs_of(kept_names@) =~= Seq::<(Seq<char>, Seq<char>)>::empty());
        }
        while j < m
            invariant
                j <= m,
                m == self.names@.len(),
                pairs_of(kept_names@) == spec_remove_name(
                    pairs_of(self.names@).subrange(0, j as int),
                    id@,
                ),
                self.names == old(self).names,
            decreases m - j,
        {
            let ghost pre = pairs_of(self.names@).subrange(0, j as int);
            let ghost cur = (self.names@[j as int].0@, self.names@[j as int].1@);
            proof {
                assert(pairs_of(self.names@).subrange(0, j + 1) =~= pre + seq![cur]);
                lemma_remove_name_app(pre, seq![cur], id@);
                assert(seq![cur].drop_first() =~= Seq::<(Seq<char>, Seq<char>)>::empty());
                assert(spec_remove_name(Seq::<(Seq<char>, Seq<char>)>::empty(), id@) =~= Seq::<(
                    Seq<char>,
                    Seq<char>,
                )>::empty());
                if cur.0 == id@ {
                    assert(spec_remove_name(seq![cur], id@) =~= Seq::<(
                        Seq<char>,
                        Seq<char>,
                    )>::empty());
                } else {
                    assert(spec_remove_name(seq![cur], id@) =~= seq![cur] + Seq::<(
                        Seq<char>,
                        Seq<char>,
                    )>::empty());
                    assert(seq![cur] + Seq::<(Seq<char>, Seq<char>)>::empty() =~= seq![cur]);
                }
            }
            if !string_eq(&self.names[j].0, id) {
                let k = self.names[j].0.clone();
                let v = self.names[j].1.clone();
                kept_names.push((k, v));
                proof {
                    assert(pairs_of(kept_names@) =~= spec_remove_name(pre, id@) + seq![cur]);
                }
            }
            proof {
                assert(pairs_of(kept_names@) =~= spec_remove_name(
                    pairs_of(self.names@).subrange(0, j + 1),
                    id@,
                ));
            }
            j = j + 1;
        }
        proof {
            assert(pairs_of(self.names@).subrange(0, m as int) =~= pairs_of(self.names@));
        }
        self.names = kept_names;
    }

    /// The friendly name filed under `id`, or `None` when none is filed.
    pub fn get_friendly_name(&self, id: &String) -> (r: Option<String>)
        ensures
            match r {
                Some(v) => name_of(self.names_view(), id@) == Some(v@),
                None => name_of(self.names_view(), id@) is None,
            },
    {
        let m = self.names.len();
        let mut j: usize = 0;
        proof {
            assert(pairs_of(self.names@).skip(0) =~= pairs_of(self.names@));
        }
        while j < m
            invariant
                j <= m,
                m == self.names@.len(),
                name_of(pairs_of(self.names@), id@) == name_of(
                    pairs_of(self.names@).skip(j as int),
                    id@,
                ),
            decreases m - j,
        {
            let ghost tail = pairs_of(self.names@).skip(j as int);
            proof {
                assert(tail[0] == (self.names@[j as int].0@, self.names@[j as int].1@));
                assert(tail.drop_first() =~= pairs_of(self.names@).skip(j + 1));
            }
            if string_eq(&self.names[j].0, id) {
                return Some(self.names[j].1.clone());
            }
            j = j + 1;
        }
        proof {
            assert(pairs_of(self.names@).skip(m as int) =~= Seq::<(Seq<char>, Seq<char>)>::empty());
        }
        None
    }

    /// File `name` under `id`, replacing any earlier name; works whether or
    /// not a record for `id` is cached, so names may arrive first.
    pub fn set_friendly_name(&mut self, id: &String, name: &String)
        requires
            old(self).wf(),
        ensures
            final(self).wf(),
            final(self).names_view() == spec_set_name(old(self).names_view(), id@, name@),
            final(self).records_view() == old(self).records_view(),
    {
        proof {
            lemma_set_name_unique(old(self).names_view(), id@, name@);
        }
        let m = self.names.len();
        let mut j: usize = 0;
        while j < m
            invariant
                j <= m,
                m == self.names@.len(),
                old(self).wf(),
                forall|k: int| 0 <= k < j ==> (#[trigger] pairs_of(self.names@)[k]).0 != id@,
                self == old(self),
            decreases m - j,
        {
            if string_eq(&self.names[j].0, id) {
                let ghost ps = self.names_view();
                self.names.remove(j);
                self.names.insert(j, (id.clone(), name.clone()));
                proof {
                    lemma_set_name_unique(ps, id@, name@);
                    assert(self.names_view() =~= ps.update(j as int, (id@, name@)));
                    lemma_set_name_found(ps, id@, name@, j as int);
                }
                return ;
            }
            j = j + 1;
        }
        let ghost ps = self.names_view();
        self.names.push((id.clone(), name.clone()));
        proof {
            assert(self.names_view() =~= ps.push((id@, name@)));
            lemma_set_name_absent(ps, id@, name@);
        }
    }

    /// Rebuild a cache from its two persisted blobs. A blob that is not
    /// exactly a rendering this crate wrote — or whose entries collide on a
    /// key — counts as corrupt and yields the empty collection in its place;
    /// corruption never propagates and never fails.
    pub fn hydrate(records_blob: &str, names_blob: &str) -> (c: Self)
        ensures
            c.wf(),
            c.records_view() == (match parse_records(records_blob@) {
                Some(rs) => if unique_ids(rs) {
                    rs
                } else {
                    Seq::<RecordView>::empty()
                },
                None => Seq::<RecordView>::empty(),
            }),
            c.names_view() == (match parse_names(names_blob@) {
                Some(ps) => if unique_keys(ps) {
                    ps
                } else {
                    Seq::<(Seq<char>, Seq<char>)>::empty()
                },
                None => Seq::<(Seq<char>, Seq<char>)>::empty(),
            }),
    {
        let records: Vec<LocalConnectionRecord> = match decode_records(records_blob) {
            Some(v) => if ids_unique(&v) {
                v
            } else {
                Vec::new()
            },
            None => Vec::new(),
        };
        let names: Vec<(String, String)> = match decode_names(names_blob) {
            Some(v) => if keys_unique(&v) {
                v
            } else {
                Vec::new()
            },
            None => Vec::new(),
        };
        let c = ConnectionCache { records, names };
        proof {
            assert(views_of(Seq::<LocalConnectionRecord>::empty()) =~= Seq::<RecordView>::empty());
            assert(pairs_of(Seq::<(String, String)>::empty()) =~= Seq::<(
                Seq<char>,
                Seq<char>,
            )>::empty());
        }
        c
    }

    /// The persisted rendering of the record collection.
    pub fn persist_records(&self) -> (r: String)
        ensures
            r@ == records_chars(self.records_view()),
    {
        encode_records(&self.records)
    }

    /// The persisted rendering of the name index.
    pub fn persist_names(&self) -> (r: String)
        ensures
            r@ == names_chars(self.names_view()),
    {
        encode_names(&self.names)
    }
}

/// Check that no two records carry the same id.
fn ids_unique(v: &Vec<LocalConnectionRecord>) -> (r: bool)
    ensures
        r == unique_ids(views_of(v@)),
{
    let n = v.len();
    let mut a: usize = 0;
    while a < n
        invariant
            a <= n,
            n == v@.len(),
            forall|x: int, y: int|
                0 <= x < y < n && x < a ==> (#[trigger] views_of(v@)[x].id) != (
                #[trigger] views_of(v@)[y].id),
        decreases n - a,
    {
        let mut b: usize = a + 1;
        while b < n
            invariant
                a < b <= n,
                a < n,
                n == v@.len(),
                forall|y: int|
                    a < y < b ==> views_of(v@)[a as int].id != (#[trigger] views_of(v@)[y].id),
        decreases n - b,
        {
            if string_eq(&v[a].id, &v[b].id) {
                proof {
                    assert(views_of(v@)[a as int].id == views_of(v@)[b as int].id);
                }
                return false;
            }
            b = b + 1;
        }
        a = a + 1;
    }
    true
}

/// Check that no two name-index entries carry the same key.
fn keys_unique(v: &Vec<(String, String)>) -> (r: bool)
    ensures
        r == unique_keys(pairs_of(v@)),
{
    let n = v.len();
    let mut a: usize = 0;
    while a < n
        invariant
            a <= n,
            n == v@.len(),
            forall|x: int, y: int|
                0 <= x < y < n && x < a ==> (#[trigger] pairs_of(v@)[x].0) != (
                #[trigger] pairs_of(v@)[y].0),
        decreases n - a,
    {
        let mut b: usize = a + 1;
        while b < n
            invariant
                a < b <= n,
                a < n,
                n == v@.len(),
                forall|y: int|
                    a < y < b ==> pairs_of(v@)[a as int].0 != (#[trigger] pairs_of(v@)[y].0),
        decreases n - b,
        {
            if string_eq(&v[a].0, &v[b].0) {
                proof {
                    assert(pairs_of(v@)[a as int].0 == pairs_of(v@)[b as int].0);
                }
                return false;
            }
            b = b + 1;
        }
        a = a + 1;
    }
    true
}


/// What a well-formed cache persists always loads back as itself: the two
/// persisted renderings decode to exactly the cache's records and names, with
/// their keys unique, so hydration accepts them unchanged.
pub proof fn lemma_persist_hydrate_round_trip(c: ConnectionCache)
    requires
        c.wf(),
    ensures
        parse_records(records_chars(c.records_view())) == Some(c.records_view()),
        unique_ids(c.records_view()),
        parse_names(names_chars(c.names_view())) == Some(c.names_view()),
        unique_keys(c.names_view()),
{
    assert forall|k: int| 0 <= k < c.records_view().len() implies record_wf(
        #[trigger] c.records_view()[k],
    ) by {
        assert(c.records_view()[k] == c.records@[k]@);
    }
    lemma_records_round_trip(c.records_view());
    lemma_names_round_trip(c.names_view());
}

/// Upsert is idempotent: writing the same record a second time leaves the
/// cache with the same size and content as writing it once.
pub proof fn lemma_upsert_idempotent(rs: Seq<RecordView>, r: RecordView)
    ensures
        spec_upsert(spec_upsert(rs, r), r) == spec_upsert(rs, r),
    decreases rs.len(),
{
    if rs.len() == 0 {
        assert(seq![r][0].id == r.id);
        assert(seq![r].drop_first() =~= Seq::<RecordView>::empty());
        assert(spec_upsert(seq![r], r) =~= seq![r]);
    } else if rs[0].id == r.id {
        let inner = seq![r] + rs.drop_first();
        assert(inner[0].id == r.id);
        assert(inner.drop_first() =~= rs.drop_first());
        assert(spec_upsert(inner, r) =~= seq![r] + rs.drop_first());
    } else {
        lemma_upsert_idempotent(rs.drop_first(), r);
        let inner = seq![rs[0]] + spec_upsert(rs.drop_first(), r);
        assert(inner[0] == rs[0]);
        assert(inner.drop_first() =~= spec_upsert(rs.drop_first(), r));
        assert(spec_upsert(inner, r) =~= seq![rs[0]] + spec_upsert(
            spec_upsert(rs.drop_first(), r),
            r,
        ));
    }
}

/// No record left by a removal carries the removed id.
proof fn lemma_remove_gone(rs: Seq<RecordView>, id: Seq<char>)
    ensures
        forall|j: int|
            0 <= j < spec_remove(rs, id).len() ==> (#[trigger] spec_remove(rs, id)[j]).id != id,
    decreases rs.len(),
{
    if rs.len() > 0 {
        lemma_remove_gone(rs.drop_first(), id);
        let out = spec_remove(rs, id);
        let tail = spec_remove(rs.drop_first(), id);
        assert forall|j: int| 0 <= j < out.len() implies (#[trigger] out[j]).id != id by {
            if rs[0].id == id {
                assert(out[j] == tail[j]);
            } else if j > 0 {
                assert(out[j] == tail[j - 1]);
            }
        }
    }
}

/// No entry left by a name removal carries the removed key.
proof fn lemma_remove_name_gone(ps: Seq<(Seq<char>, Seq<char>)>, id: Seq<char>)
    ensures
        forall|j: int|
            0 <= j < spec_remove_name(ps, id).len() ==> (#[trigger] spec_remove_name(ps, id)[j]).0
                != id,
    decreases ps.len(),
{
    if ps.len() > 0 {
        lemma_remove_name_gone(ps.drop_first(), id);
        let out = spec_remove_name(ps, id);
        let tail = spec_remove_name(ps.drop_first(), id);
        assert forall|j: int| 0 <= j < out.len() implies (#[trigger] out[j]).0 != id by {
            if ps[0].0 == id {
                assert(out[j] == tail[j]);
            } else if j > 0 {
                assert(out[j] == tail[j - 1]);
            }
        }
    }
}

/// Looking up an id that no record carries finds nothing.
proof fn lemma_lookup_none(rs: Seq<RecordView>, id: Seq<char>)
    requires
        forall|j: int| 0 <= j < rs.len() ==> (#[trigger] rs[j]).id != id,
    ensures
        lookup_record(rs, id) is None,
    decreases rs.len(),
{
    if rs.len() > 0 {
        assert(forall|j: int|
            0 <= j < rs.drop_first().len() ==> #[trigger] rs.drop_first()[j] == rs[j + 1]);
        lemma_lookup_none(rs.drop_first(), id);
    }
}

/// Looking up a key that no entry carries finds nothing.
proof fn lemma_name_of_none(ps: Seq<(Seq<char>, Seq<char>)>, id: Seq<char>)
    requires
        forall|j: int| 0 <= j < ps.len() ==> (#[trigger] ps[j]).0 != id,
    ensures
        name_of(ps, id) is None,
    decreases ps.len(),
{
    if ps.len() > 0 {
        assert(forall|j: int|
            0 <= j < ps.drop_first().len() ==> #[trigger] ps.drop_first()[j] == ps[j + 1]);
        lemma_name_of_none(ps.drop_first(), id);
    }
}

/// Removing an id that no record carries changes nothing.
proof fn lemma_remove_noop(rs: Seq<RecordView>, id: Seq<char>)
    requires
        forall|j: int| 0 <= j < rs.len() ==> (#[trigger] rs[j]).id != id,
    ensures
        spec_remove(rs, id) == rs,
    decreases rs.len(),
{
    if rs.len() == 0 {
        assert(spec_remove(rs, id) =~= rs);
    } else {
        assert(forall|j: int|
            0 <= j < rs.drop_first().len() ==> #[trigger] rs.drop_first()[j] == rs[j + 1]);
        lemma_remove_noop(rs.drop_first(), id);
        assert(seq![rs[0]] + rs.drop_first() =~= rs);
    }
}

/// Removing a key that no entry carries changes nothing.
proof fn lemma_remove_name_noop(ps: Seq<(Seq<char>, Seq<char>)>, id: Seq<char>)
    requires
        forall|j: int| 0 <= j < ps.len() ==> (#[trigger] ps[j]).0 != id,
    ensures
        spec_remove_name(ps, id) == ps,
    decreases ps.len(),
{
    if ps.len() == 0 {
        assert(spec_remove_name(ps, id) =~= ps);
    } else {
        assert(forall|j: int|
            0 <= j < ps.drop_first().len() ==> #[trigger] ps.drop_first()[j] == ps[j + 1]);
        lemma_remove_name_noop(ps.drop_first(), id);
        assert(seq![ps[0]] + ps.drop_first() =~= ps);
    }
}

/// Deletion is terminal: after a removal the id is cached under no record,
/// its friendly name is gone, and removing the same id again is a no-op.
pub proof fn lemma_remove_terminal(
    rs: Seq<RecordView>,
    ps: Seq<(Seq<char>, Seq<char>)>,
    id: Seq<char>,
)
    ensures
        !has_id(spec_remove(rs, id), id),
        lookup_record(spec_remove(rs, id), id) is None,
        name_of(spec_remove_name(ps, id), id) is None,
        spec_remove(spec_remove(rs, id), id) == spec_remove(rs, id),
        spec_remove_name(spec_remove_name(ps, id), id) == spec_remove_name(ps, id),
{
    lemma_remove_gone(rs, id);
    lemma_remove_name_gone(ps, id);
    lemma_lookup_none(spec_remove(rs, id), id);
    lemma_name_of_none(spec_remove_name(ps, id), id);
    lemma_remove_noop(spec_remove(rs, id), id);
    lemma_remove_name_noop(spec_remove_name(ps, id), id);
}

/// Every record after an upsert is the inserted one or one that was there.
proof fn lemma_upsert_elems(rs: Seq<RecordView>, r: RecordView)
    ensures
        forall|j: int|
            0 <= j < spec_upsert(rs, r).len() ==> (#[trigger] spec_upsert(rs, r)[j] == r || exists|
                w: int,
            | 0 <= w < rs.len() && #[trigger] rs[w] == spec_upsert(rs, r)[j]),
    decreases rs.len(),
{
    let out = spec_upsert(rs, r);
    if rs.len() == 0 {
    } else if rs[0].id == r.id {
        assert forall|j: int| 0 <= j < out.len() implies (#[trigger] out[j] == r || exists|w: int|
            0 <= w < rs.len() && #[trigger] rs[w] == out[j]) by {
            if j > 0 {
                assert(out[j] == rs[j]);
            }
        }
    } else {
        lemma_upsert_elems(rs.drop_first(), r);
        let tail = spec_upsert(rs.drop_first(), r);
        assert forall|j: int| 0 <= j < out.len() implies (#[trigger] out[j] == r || exists|w: int|
            0 <= w < rs.len() && #[trigger] rs[w] == out[j]) by {
            if j == 0 {
                assert(out[0] == rs[0]);
            } else {
                assert(out[j] == tail[j - 1]);
                if tail[j - 1] != r {
                    let w = choose|w: int|
                        0 <= w < rs.drop_first().len() && #[trigger] rs.drop_first()[w] == tail[j
                            - 1];
                    assert(rs.drop_first()[w] == rs[w + 1]);
                }
            }
        }
    }
}

/// Looking up the id of a just-upserted record finds exactly that record.
pub proof fn lemma_lookup_upsert(rs: Seq<RecordView>, r: RecordView)
    ensures
        lookup_record(spec_upsert(rs, r), r.id) == Some(r),
        has_id(spec_upsert(rs, r), r.id),
    decreases rs.len(),
{
    let out = spec_upsert(rs, r);
    if rs.len() == 0 {
        assert(out[0] == r);
    } else if rs[0].id == r.id {
        assert(out[0] == r);
    } else {
        lemma_lookup_upsert(rs.drop_first(), r);
        assert(out[0] == rs[0]);
        assert(out.drop_first() =~= spec_upsert(rs.drop_first(), r));
        let w = choose|w: int|
            0 <= w < spec_upsert(rs.drop_first(), r).len() && #[trigger] spec_upsert(
                rs.drop_first(),
                r,
            )[w].id == r.id;
        assert(out[w + 1] == spec_upsert(rs.drop_first(), r)[w]);
    }
}

/// Saving a record and loading the collection back yields the record again,
/// equal in every field: the persisted rendering of the collection after an
/// upsert decodes to exactly that collection, in which the record's id finds
/// the record itself.
pub proof fn lemma_save_load_round_trip(rs: Seq<RecordView>, r: RecordView)
    requires
        record_wf(r),
        forall|k: int| 0 <= k < rs.len() ==> record_wf(#[trigger] rs[k]),
    ensures
        parse_records(records_chars(spec_upsert(rs, r))) == Some(spec_upsert(rs, r)),
        lookup_record(spec_upsert(rs, r), r.id) == Some(r),
{
    lemma_upsert_elems(rs, r);
    let out = spec_upsert(rs, r);
    assert forall|k: int| 0 <= k < out.len() implies record_wf(#[trigger] out[k]) by {
        if out[k] != r {
            let w = choose|w: int| 0 <= w < rs.len() && #[trigger] rs[w] == out[k];
        }
    }
    lemma_records_round_trip(out);
    lemma_lookup_upsert(rs, r);
}

/// Replacing the record at the first index carrying `r`'s id is what
/// `spec_upsert` does when such an index exists.
proof fn lemma_upsert_found(rs: Seq<RecordView>, r: RecordView, j: int)
    requires
        0 <= j < rs.len(),
        rs[j].id == r.id,
        forall|k: int| 0 <= k < j ==> #[trigger] rs[k].id != r.id,
    ensures
        spec_upsert(rs, r) == rs.update(j, r),
    decreases j,
{
    if j == 0 {
        assert(seq![r] + rs.drop_first() =~= rs.update(0, r));
    } else {
        assert(rs[0].id != r.id);
        lemma_upsert_found(rs.drop_first(), r, j - 1);
        assert(seq![rs[0]] + rs.drop_first().update(j - 1, r) =~= rs.update(j, r));
    }
}

/// Appending is what `spec_upsert` does when no record carries `r`'s id.
proof fn lemma_upsert_absent(rs: Seq<RecordView>, r: RecordView)
    requires
        forall|k: int| 0 <= k < rs.len() ==> #[trigger] rs[k].id != r.id,
    ensures
        spec_upsert(rs, r) == rs.push(r),
    decreases rs.len(),
{
    if rs.len() == 0 {
        assert(seq![r] =~= rs.push(r));
    } else {
        lemma_upsert_absent(rs.drop_first(), r);
        assert(seq![rs[0]] + rs.drop_first().push(r) =~= rs.push(r));
    }
}

/// `spec_upsert` keeps ids unique, and introduces no id but `r`'s.
proof fn lemma_upsert_unique(rs: Seq<RecordView>, r: RecordView)
    requires
        unique_ids(rs),
    ensures
        unique_ids(spec_upsert(rs, r)),
        forall|j: int|
            0 <= j < spec_upsert(rs, r).len() ==> (#[trigger] spec_upsert(rs, r)[j].id == r.id
                || has_id(rs, spec_upsert(rs, r)[j].id)),
    decreases rs.len(),
{
    let out = spec_upsert(rs, r);
    if rs.len() == 0 {
    } else if rs[0].id == r.id {
        assert forall|a: int, b: int| 0 <= a < b < out.len() implies (#[trigger] out[a].id) != (#[trigger] out[b].id) by {
            assert(out[b] == rs.drop_first()[b - 1]);
            assert(rs.drop_first()[b - 1] == rs[b]);
            if a > 0 {
                assert(out[a] == rs[a]);
            }
        }
        assert forall|j: int| 0 <= j < out.len() implies (#[trigger] out[j].id == r.id || has_id(
            rs,
            out[j].id,
        )) by {
            if j > 0 {
                assert(out[j] == rs[j]);
            }
        }
    } else {
        assert(unique_ids(rs.drop_first())) by {
            assert(forall|k: int|
                0 <= k < rs.drop_first().len() ==> #[trigger] rs.drop_first()[k] == rs[k + 1]);
        }
        lemma_upsert_unique(rs.drop_first(), r);
        let tail = spec_upsert(rs.drop_first(), r);
        assert forall|a: int, b: int| 0 <= a < b < out.len() implies (#[trigger] out[a].id) != (#[trigger] out[b].id) by {
            if a == 0 {
                assert(out[b] == tail[b - 1]);
                assert(tail[b - 1].id == r.id || has_id(rs.drop_first(), tail[b - 1].id));
                if tail[b - 1].id != r.id {
                    let w = choose|w: int|
                        0 <= w < rs.drop_first().len() && #[trigger] rs.drop_first()[w].id
                            == tail[b - 1].id;
                    assert(rs.drop_first()[w] == rs[w + 1]);
                }
            } else {
                assert(out[a] == tail[a - 1] && out[b] == tail[b - 1]);
            }
        }
        assert forall|j: int| 0 <= j < out.len() implies (#[trigger] out[j].id == r.id || has_id(
            rs,
            out[j].id,
        )) by {
            if j == 0 {
                assert(out[0] == rs[0]);
                assert(rs[0].id == rs[0].id);
            } else {
                assert(out[j] == tail[j - 1]);
                if tail[j - 1].id != r.id {
                    let w = choose|w: int|
                        0 <= w < rs.drop_first().len() && #[trigger] rs.drop_first()[w].id == tail[j
                            - 1].id;
                    assert(rs.drop_first()[w] == rs[w + 1]);
                }
            }
        }
    }
}

/// Removal distributes over concatenation.
proof fn lemma_remove_app(a: Seq<RecordView>, b: Seq<RecordView>, id: Seq<char>)
    ensures
        spec_remove(a + b, id) == spec_remove(a, id) + spec_remove(b, id),
    decreases a.len(),
{
    if a.len() == 0 {
        assert(a + b =~= b);
        assert(spec_remove(a, id) + spec_remove(b, id) =~= spec_remove(b, id));
    } else {
        lemma_remove_app(a.drop_first(), b, id);
        assert((a + b).drop_first() =~= a.drop_first() + b);
        if a[0].id == id {
        } else {
            assert(seq![a[0]] + (spec_remove(a.drop_first(), id) + spec_remove(b, id)) =~= (
            seq![a[0]] + spec_remove(a.drop_first(), id)) + spec_remove(b, id));
        }
    }
}

/// Name removal distributes over concatenation.
proof fn lemma_remove_name_app(
    a: Seq<(Seq<char>, Seq<char>)>,
    b: Seq<(Seq<char>, Seq<char>)>,
    id: Seq<char>,
)
    ensures
        spec_remove_name(a + b, id) == spec_remove_name(a, id) + spec_remove_name(b, id),
    decreases a.len(),
{
    if a.len() == 0 {
        assert(a + b =~= b);
        assert(spec_remove_name(a, id) + spec_remove_name(b, id) =~= spec_remove_name(b, id));
    } else {
        lemma_remove_name_app(a.drop_first(), b, id);
        assert((a + b).drop_first() =~= a.drop_first() + b);
        if a[0].0 == id {
        } else {
            assert(seq![a[0]] + (spec_remove_name(a.drop_first(), id) + spec_remove_name(b, id))
                =~= (seq![a[0]] + spec_remove_name(a.drop_first(), id)) + spec_remove_name(b, id));
        }
    }
}

/// What `spec_remove` keeps: exactly the records with another id, in order.
proof fn lemma_remove_unique(rs: Seq<RecordView>, id: Seq<char>)
    requires
        unique_ids(rs),
    ensures
        unique_ids(spec_remove(rs, id)),
        forall|j: int|
            0 <= j < spec_remove(rs, id).len() ==> has_id(rs, #[trigger] spec_remove(rs, id)[j].id),
    decreases rs.len(),
{
    if rs.len() > 0 {
        assert(unique_ids(rs.drop_first())) by {
            assert(forall|k: int|
                0 <= k < rs.drop_first().len() ==> #[trigger] rs.drop_first()[k] == rs[k + 1]);
        }
        lemma_remove_unique(rs.drop_first(), id);
        let tail = spec_remove(rs.drop_first(), id);
        assert forall|j: int| 0 <= j < tail.len() implies has_id(rs, #[trigger] tail[j].id) by {
            let w = choose|w: int|
                0 <= w < rs.drop_first().len() && #[trigger] rs.drop_first()[w].id == tail[j].id;
            assert(rs.drop_first()[w] == rs[w + 1]);
        }
        if rs[0].id != id {
            let out = spec_remove(rs, id);
            assert forall|a: int, b: int| 0 <= a < b < out.len() implies (#[trigger] out[a].id) != (#[trigger] out[b].id) by {
                assert(out[b] == tail[b - 1]);
                assert(has_id(rs.drop_first(), tail[b - 1].id));
                if a == 0 {
                    let w = choose|w: int|
                        0 <= w < rs.drop_first().len() && #[trigger] rs.drop_first()[w].id == tail[b
                            - 1].id;
                    assert(rs.drop_first()[w] == rs[w + 1]);
                } else {
                    assert(out[a] == tail[a - 1]);
                }
            }
        }
    }
}

/// What name removal keeps: exactly the entries with another key, in order.
proof fn lemma_remove_name_unique(ps: Seq<(Seq<char>, Seq<char>)>, id: Seq<char>)
    requires
        unique_keys(ps),
    ensures
        unique_keys(spec_remove_name(ps, id)),
        forall|j: int|
            0 <= j < spec_remove_name(ps, id).len() ==> exists|w: int|
                0 <= w < ps.len() && #[trigger] ps[w].0 == #[trigger] spec_remove_name(ps, id)[j].0,
    decreases ps.len(),
{
    if ps.len() > 0 {
        assert(unique_keys(ps.drop_first())) by {
            assert(forall|k: int|
                0 <= k < ps.drop_first().len() ==> #[trigger] ps.drop_first()[k] == ps[k + 1]);
        }
        lemma_remove_name_unique(ps.drop_first(), id);
        let tail = spec_remove_name(ps.drop_first(), id);
        assert forall|j: int| 0 <= j < tail.len() implies exists|w: int|
            0 <= w < ps.len() && #[trigger] ps[w].0 == #[trigger] tail[j].0 by {
            let w = choose|w: int|
                0 <= w < ps.drop_first().len() && #[trigger] ps.drop_first()[w].0 == tail[j].0;
            assert(ps.drop_first()[w] == ps[w + 1]);
        }
        if ps[0].0 != id {
            let out = spec_remove_name(ps, id);
            assert forall|a: int, b: int| 0 <= a < b < out.len() implies (#[trigger] out[a].0) != (#[trigger] out[b].0) by {
                assert(out[b] == tail[b - 1]);
                if a == 0 {
                    let w = choose|w: int|
                        0 <= w < ps.drop_first().len() && #[trigger] ps.drop_first()[w].0 == tail[b
                            - 1].0;
                    assert(ps.drop_first()[w] == ps[w + 1]);
                } else {
                    assert(out[a] == tail[a - 1]);
                }
            }
        }
    }
}

/// Replacing the entry at the first index keyed by `id` is what
/// `spec_set_name` does when such an index exists.
proof fn lemma_set_name_found(ps: Seq<(Seq<char>, Seq<char>)>, id: Seq<char>, name: Seq<char>, j: int)
    requires
        0 <= j < ps.len(),
        ps[j].0 == id,
        forall|k: int| 0 <= k < j ==> #[trigger] ps[k].0 != id,
    ensures
        spec_set_name(ps, id, name) == ps.update(j, (id, name)),
    decreases j,
{
    if j == 0 {
        assert(seq![(id, name)] + ps.drop_first() =~= ps.update(0, (id, name)));
    } else {
        assert(ps[0].0 != id);
        lemma_set_name_found(ps.drop_first(), id, name, j - 1);
        assert(seq![ps[0]] + ps.drop_first().update(j - 1, (id, name)) =~= ps.update(
            j,
            (id, name),
        ));
    }
}

/// Appending is what `spec_set_name` does when no entry is keyed by `id`.
proof fn lemma_set_name_absent(ps: Seq<(Seq<char>, Seq<char>)>, id: Seq<char>, name: Seq<char>)
    requires
        forall|k: int| 0 <= k < ps.len() ==> #[trigger] ps[k].0 != id,
    ensures
        spec_set_name(ps, id, name) == ps.push((id, name)),
    decreases ps.len(),
{
    if ps.len() == 0 {
        assert(seq![(id, name)] =~= ps.push((id, name)));
    } else {
        lemma_set_name_absent(ps.drop_first(), id, name);
        assert(seq![ps[0]] + ps.drop_first().push((id, name)) =~= ps.push((id, name)));
    }
}

/// `spec_set_name` keeps keys unique, and introduces no key but `id`.
proof fn lemma_set_name_unique(ps: Seq<(Seq<char>, Seq<char>)>, id: Seq<char>, name: Seq<char>)
    requires
        unique_keys(ps),
    ensures
        unique_keys(spec_set_name(ps, id, name)),
    decreases ps.len(),
{
    let out = spec_set_name(ps, id, name);
    if ps.len() == 0 {
    } else if ps[0].0 == id {
        assert forall|a: int, b: int| 0 <= a < b < out.len() implies (#[trigger] out[a].0) != (#[trigger] out[b].0) by {
            assert(out[b] == ps.drop_first()[b - 1]);
            assert(ps.drop_first()[b - 1] == ps[b]);
            if a > 0 {
                assert(out[a] == ps[a]);
            }
        }
    } else {
        assert(unique_keys(ps.drop_first())) by {
            assert(forall|k: int|
                0 <= k < ps.drop_first().len() ==> #[trigger] ps.drop_first()[k] == ps[k + 1]);
        }
        lemma_set_name_unique(ps.drop_first(), id, name);
        lemma_set_name_keys(ps.drop_first(), id, name);
        let tail = spec_set_name(ps.drop_first(), id, name);
        assert forall|a: int, b: int| 0 <= a < b < out.len() implies (#[trigger] out[a].0) != (#[trigger] out[b].0) by {
            if a == 0 {
                assert(out[b] == tail[b - 1]);
                if tail[b - 1].0 != id {
                    let w = choose|w: int|
                        0 <= w < ps.drop_first().len() && #[trigger] ps.drop_first()[w].0 == tail[b
                            - 1].0;
                    assert(ps.drop_first()[w] == ps[w + 1]);
                }
            } else {
                assert(out[a] == tail[a - 1] && out[b] == tail[b - 1]);
            }
        }
    }
}

/// Every key after `spec_set_name` is `id` or a key that was already there.
proof fn lemma_set_name_keys(ps: Seq<(Seq<char>, Seq<char>)>, id: Seq<char>, name: Seq<char>)
    ensures
        forall|j: int|
            0 <= j < spec_set_name(ps, id, name).len() ==> (#[trigger] spec_set_name(
                ps,
                id,
                name,
            )[j].0 == id || exists|w: int|
                0 <= w < ps.len() && #[trigger] ps[w].0 == spec_set_name(ps, id, name)[j].0),
    decreases ps.len(),
{
    let out = spec_set_name(ps, id, name);
    if ps.len() == 0 {
    } else if ps[0].0 == id {
        assert forall|j: int| 0 <= j < out.len() implies (#[trigger] out[j].0 == id || exists|
            w: int,
        | 0 <= w < ps.len() && #[trigger] ps[w].0 == out[j].0) by {
            if j > 0 {
                assert(out[j] == ps[j]);
            }
        }
    } else {
        lemma_set_name_keys(ps.drop_first(), id, name);
        let tail = spec_set_name(ps.drop_first(), id, name);
        assert forall|j: int| 0 <= j < out.len() implies (#[trigger] out[j].0 == id || exists|
            w: int,
        | 0 <= w < ps.len() && #[trigger] ps[w].0 == out[j].0) by {
            if j == 0 {
                assert(out[0] == ps[0]);
            } else {
                assert(out[j] == tail[j - 1]);
                if tail[j - 1].0 != id {
                    let w = choose|w: int|
                        0 <= w < ps.drop_first().len() && #[trigger] ps.drop_first()[w].0 == tail[j
                            - 1].0;
                    assert(ps.drop_first()[w] == ps[w + 1]);
                }
            }
        }
    }
}

} // verus!
