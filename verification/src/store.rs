//! The record store and its search index, with the write-through
//! consistency invariant between them.

use vstd::prelude::*;
use vstd::string::*;
use crate::codec::{key_to_string, spec_joined, views_of};
use crate::errors::KvError;
use crate::fts::{spec_tokens, text_matches, tokenize, value_matches};
use crate::sanitize::{sanitize_table_name, spec_sanitized};

verus! {

/// One stored record of a collection. `created_at` is fixed when the record
/// first appears; `updated_at` refreshes on every overwrite.
pub struct Record {
    pub key: String,
    pub value: String,
    pub created_at: u64,
    pub updated_at: u64,
}

/// A named collection of records; the name is always a sanitized identifier.
pub struct Collection {
    pub name: String,
    pub records: Vec<Record>,
}

/// One entry of the cross-collection search index: a denormalized copy of a
/// record's key and value, together with its collection's name.
#[derive(Debug)]
pub struct SearchEntry {
    pub table_name: String,
    pub key: String,
    pub value: String,
}

/// The nested map a store denotes: collection name, then key, then value.
pub type StoreMap = Map<Seq<char>, Map<Seq<char>, Seq<char>>>;

/// The finite map denoted by an association sequence, where `kf` projects an
/// element's key and `vf` its value; a later element overrides an earlier one.
pub open spec fn assoc_map<T, K, V>(s: Seq<T>, kf: spec_fn(T) -> K, vf: spec_fn(T) -> V) -> Map<
    K,
    V,
>
    decreases s.len(),
{
    if s.len() == 0 {
        Map::empty()
    } else {
        assoc_map(s.drop_last(), kf, vf).insert(kf(s.last()), vf(s.last()))
    }
}

/// No two elements carry the same key.
pub open spec fn unique_keys<T, K>(s: Seq<T>, kf: spec_fn(T) -> K) -> bool {
    forall|i: int, j: int| 0 <= i < j < s.len() ==> kf(s[i]) != kf(s[j])
}

/// The key of a record.
pub open spec fn rec_kf() -> spec_fn(Record) -> Seq<char> {
    |r: Record| r.key@
}

/// The value of a record.
pub open spec fn rec_vf() -> spec_fn(Record) -> Seq<char> {
    |r: Record| r.value@
}

/// The key/value map of one collection's record sequence.
pub open spec fn rec_map(rs: Seq<Record>) -> Map<Seq<char>, Seq<char>> {
    assoc_map(rs, rec_kf(), rec_vf())
}

/// The name of a collection.
pub open spec fn col_kf() -> spec_fn(Collection) -> Seq<char> {
    |c: Collection| c.name@
}

/// The record map of a collection.
pub open spec fn col_vf() -> spec_fn(Collection) -> Map<Seq<char>, Seq<char>> {
    |c: Collection| rec_map(c.records@)
}

/// The (collection, key) identity of a search entry.
pub open spec fn entry_kf() -> spec_fn(SearchEntry) -> (Seq<char>, Seq<char>) {
    |e: SearchEntry| (e.table_name@, e.key@)
}

/// The indexed value of a search entry.
pub open spec fn entry_vf() -> spec_fn(SearchEntry) -> Seq<char> {
    |e: SearchEntry| e.value@
}

/// The search-index map of an entry sequence.
pub open spec fn entry_map(es: Seq<SearchEntry>) -> Map<(Seq<char>, Seq<char>), Seq<char>> {
    assoc_map(es, entry_kf(), entry_vf())
}

/// The store map flattened to (collection, key) pairs: exactly the pairs the
/// search index must mirror.
pub open spec fn flat(m: StoreMap) -> Map<(Seq<char>, Seq<char>), Seq<char>> {
    Map::new(
        |tk: (Seq<char>, Seq<char>)| m.contains_key(tk.0) && m[tk.0].contains_key(tk.1),
        |tk: (Seq<char>, Seq<char>)| m[tk.0][tk.1],
    )
}

/// Provisioning a collection: a present one is left as it is.
pub open spec fn m_ensure(m: StoreMap, t: Seq<char>) -> StoreMap {
    if m.contains_key(t) {
        m
    } else {
        m.insert(t, Map::empty())
    }
}

/// An upsert, provisioning the collection first.
pub open spec fn m_set(m: StoreMap, t: Seq<char>, k: Seq<char>, v: Seq<char>) -> StoreMap {
    let tbl = if m.contains_key(t) {
        m[t]
    } else {
        Map::empty()
    };
    m.insert(t, tbl.insert(k, v))
}

/// A deletion, provisioning the collection first; absent keys are a no-op.
pub open spec fn m_delete(m: StoreMap, t: Seq<char>, k: Seq<char>) -> StoreMap {
    let tbl = if m.contains_key(t) {
        m[t]
    } else {
        Map::empty()
    };
    m.insert(t, tbl.remove(k))
}

/// A lookup: the value, or nothing on a miss of either collection or key.
pub open spec fn m_get(m: StoreMap, t: Seq<char>, k: Seq<char>) -> Option<Seq<char>> {
    if m.contains_key(t) && m[t].contains_key(k) {
        Some(m[t][k])
    } else {
        None
    }
}

proof fn lemma_unique_drop_last<T, K>(s: Seq<T>, kf: spec_fn(T) -> K)
    requires
        unique_keys(s, kf),
        s.len() > 0,
    ensures
        unique_keys(s.drop_last(), kf),
{
    let d = s.drop_last();
    assert forall|i: int, j: int| 0 <= i < j < d.len() implies kf(d[i]) != kf(d[j]) by {
        assert(d[i] == s[i]);
        assert(d[j] == s[j]);
    }
}

/// A key is in the association map exactly when some element carries it.
proof fn lemma_assoc_contains<T, K, V>(s: Seq<T>, kf: spec_fn(T) -> K, vf: spec_fn(T) -> V, k: K)
    ensures
        assoc_map(s, kf, vf).contains_key(k) <==> (exists|i: int|
            0 <= i < s.len() && kf(#[trigger] s[i]) == k),
    decreases s.len(),
{
    if s.len() > 0 {
        let d = s.drop_last();
        lemma_assoc_contains(d, kf, vf, k);
        if kf(s.last()) == k {
            assert(kf(s[s.len() - 1]) == k);
        } else {
            if assoc_map(s, kf, vf).contains_key(k) {
                let i = choose|i: int| 0 <= i < d.len() && kf(#[trigger] d[i]) == k;
                assert(kf(s[i]) == k);
            }
            if exists|i: int| 0 <= i < s.len() && kf(#[trigger] s[i]) == k {
                let i = choose|i: int| 0 <= i < s.len() && kf(#[trigger] s[i]) == k;
                assert(i < s.len() - 1);
                assert(kf(d[i]) == k);
            }
        }
    }
}

/// Under unique keys, the association map sends each element's key to its value.
proof fn lemma_assoc_index<T, K, V>(s: Seq<T>, kf: spec_fn(T) -> K, vf: spec_fn(T) -> V, i: int)
    requires
        unique_keys(s, kf),
        0 <= i < s.len(),
    ensures
        assoc_map(s, kf, vf).contains_key(kf(s[i])),
        assoc_map(s, kf, vf)[kf(s[i])] == vf(s[i]),
    decreases s.len(),
{
    if i < s.len() - 1 {
        let d = s.drop_last();
        lemma_unique_drop_last(s, kf);
        assert(d[i] == s[i]);
        lemma_assoc_index(d, kf, vf, i);
        assert(kf(s.last()) != kf(s[i]));
    }
}

/// Overwriting the element at `i` with one of the same key updates that key.
proof fn lemma_assoc_update<T, K, V>(
    s: Seq<T>,
    kf: spec_fn(T) -> K,
    vf: spec_fn(T) -> V,
    i: int,
    x: T,
)
    requires
        unique_keys(s, kf),
        0 <= i < s.len(),
        kf(x) == kf(s[i]),
    ensures
        assoc_map(s.update(i, x), kf, vf) == assoc_map(s, kf, vf).insert(kf(x), vf(x)),
    decreases s.len(),
{
    let t = s.update(i, x);
    if i == s.len() - 1 {
        assert(t.drop_last() =~= s.drop_last());
        assert(t.last() == x);
        assert(assoc_map(t, kf, vf) =~= assoc_map(s, kf, vf).insert(kf(x), vf(x)));
    } else {
        let d = s.drop_last();
        lemma_unique_drop_last(s, kf);
        assert(d[i] == s[i]);
        lemma_assoc_update(d, kf, vf, i, x);
        assert(t.drop_last() =~= d.update(i, x));
        assert(t.last() == s.last());
        assert(kf(s.last()) != kf(x));
        assert(assoc_map(t, kf, vf) =~= assoc_map(s, kf, vf).insert(kf(x), vf(x)));
    }
}

/// Appending an element inserts its key.
proof fn lemma_assoc_push<T, K, V>(s: Seq<T>, kf: spec_fn(T) -> K, vf: spec_fn(T) -> V, x: T)
    ensures
        assoc_map(s.push(x), kf, vf) == assoc_map(s, kf, vf).insert(kf(x), vf(x)),
{
    assert(s.push(x).drop_last() =~= s);
    assert(s.push(x).last() == x);
}

/// Under unique keys, removing the element at `i` removes its key.
proof fn lemma_assoc_remove<T, K, V>(s: Seq<T>, kf: spec_fn(T) -> K, vf: spec_fn(T) -> V, i: int)
    requires
        unique_keys(s, kf),
        0 <= i < s.len(),
    ensures
        assoc_map(s.remove(i), kf, vf) == assoc_map(s, kf, vf).remove(kf(s[i])),
    decreases s.len(),
{
    let t = s.remove(i);
    if i == s.len() - 1 {
        assert(t =~= s.drop_last());
        lemma_unique_drop_last(s, kf);
        lemma_assoc_contains(s.drop_last(), kf, vf, kf(s[i]));
        assert forall|a: int| 0 <= a < s.drop_last().len() implies kf(s.drop_last()[a]) != kf(
            s[i],
        ) by {
            assert(s.drop_last()[a] == s[a]);
        }
        assert(!assoc_map(s.drop_last(), kf, vf).contains_key(kf(s[i])));
        assert(assoc_map(t, kf, vf) =~= assoc_map(s, kf, vf).remove(kf(s[i])));
    } else {
        let d = s.drop_last();
        lemma_unique_drop_last(s, kf);
        assert(d[i] == s[i]);
        lemma_assoc_remove(d, kf, vf, i);
        assert(t.drop_last() =~= d.remove(i));
        assert(t.last() == s.last());
        assert(kf(s.last()) != kf(s[i]));
        assert(assoc_map(t, kf, vf) =~= assoc_map(s, kf, vf).remove(kf(s[i])));
    }
}

/// Appending an element with a fresh key keeps keys unique.
proof fn lemma_unique_push<T, K>(s: Seq<T>, kf: spec_fn(T) -> K, x: T)
    requires
        unique_keys(s, kf),
        forall|i: int| 0 <= i < s.len() ==> kf(#[trigger] s[i]) != kf(x),
    ensures
        unique_keys(s.push(x), kf),
{
    let t = s.push(x);
    assert forall|i: int, j: int| 0 <= i < j < t.len() implies kf(t[i]) != kf(t[j]) by {
        if j == s.len() {
            assert(t[i] == s[i]);
        } else {
            assert(t[i] == s[i]);
            assert(t[j] == s[j]);
        }
    }
}

/// Overwriting an element with one of the same key keeps keys unique.
proof fn lemma_unique_update<T, K>(s: Seq<T>, kf: spec_fn(T) -> K, i: int, x: T)
    requires
        unique_keys(s, kf),
        0 <= i < s.len(),
        kf(x) == kf(s[i]),
    ensures
        unique_keys(s.update(i, x), kf),
{
    let t = s.update(i, x);
    assert forall|a: int, b: int| 0 <= a < b < t.len() implies kf(t[a]) != kf(t[b]) by {
        assert(kf(t[a]) == kf(s[a]));
        assert(kf(t[b]) == kf(s[b]));
    }
}

/// Removing an element keeps keys unique.
proof fn lemma_unique_remove<T, K>(s: Seq<T>, kf: spec_fn(T) -> K, i: int)
    requires
        unique_keys(s, kf),
        0 <= i < s.len(),
    ensures
        unique_keys(s.remove(i), kf),
{
    let t = s.remove(i);
    assert forall|a: int, b: int| 0 <= a < b < t.len() implies kf(t[a]) != kf(t[b]) by {
        if a < i {
            assert(t[a] == s[a]);
        } else {
            assert(t[a] == s[a + 1]);
        }
        if b < i {
            assert(t[b] == s[b]);
        } else {
            assert(t[b] == s[b + 1]);
        }
    }
}

/// An upsert moves the flattened store map by one insertion.
proof fn lemma_flat_set(m: StoreMap, t: Seq<char>, k: Seq<char>, v: Seq<char>)
    ensures
        flat(m_set(m, t, k, v)) == flat(m).insert((t, k), v),
{
    assert(flat(m_set(m, t, k, v)) =~= flat(m).insert((t, k), v));
}

/// Provisioning adds no (collection, key) pair.
proof fn lemma_flat_ensure(m: StoreMap, t: Seq<char>)
    ensures
        flat(m_ensure(m, t)) == flat(m),
{
    assert(flat(m_ensure(m, t)) =~= flat(m));
}

/// A deletion removes one (collection, key) pair from the flattened map.
proof fn lemma_flat_delete(m: StoreMap, t: Seq<char>, k: Seq<char>)
    ensures
        flat(m_delete(m, t, k)) == flat(m).remove((t, k)),
{
    assert(flat(m_delete(m, t, k)) =~= flat(m).remove((t, k)));
}

/// Relies on `std::time::SystemTime::now`: the clock's seconds since the
/// Unix epoch, or 0 if the clock reads earlier than the epoch. Nothing is
/// promised of the value: it depends on the machine's clock.
#[verifier::external_body]
fn now_seconds() -> u64 {
    match std::time::SystemTime::now().duration_since(std::time::UNIX_EPOCH) {
        Ok(d) => d.as_secs(),
        Err(_) => 0,
    }
}

/// The in-memory storage core: provisioned collections of records, and the
/// search index kept consistent with them by a write-through step on every
/// record mutation — the same invariant the persisted form maintains with
/// per-collection triggers.
pub struct KvStore {
    pub collections: Vec<Collection>,
    pub index: Vec<SearchEntry>,
}

impl KvStore {
    /// What the store holds: collection name, then key, then value.
    pub open spec fn model(self) -> StoreMap {
        assoc_map(self.collections@, col_kf(), col_vf())
    }

    /// The set of provisioned collection names.
    pub open spec fn registry(self) -> Set<Seq<char>> {
        self.model().dom()
    }

    /// Well-formed: collection names are unique, keys are unique within each
    /// collection, search entries are unique per (collection, key), and the
    /// search index holds exactly one entry per live record.
    pub open spec fn wf(self) -> bool {
        &&& unique_keys(self.collections@, col_kf())
        &&& (forall|i: int|
            0 <= i < self.collections@.len() ==> unique_keys(
                #[trigger] self.collections@[i].records@,
                rec_kf(),
            ))
        &&& unique_keys(self.index@, entry_kf())
        &&& entry_map(self.index@) == flat(self.model())
    }

    /// An empty store: no collections, no records, no search entries.
    pub fn new() -> (r: KvStore)
        ensures
            r.wf(),
            r.model() == Map::<Seq<char>, Map<Seq<char>, Seq<char>>>::empty(),
            r.collections@.len() == 0,
            r.index@.len() == 0,
    {
        let r = KvStore { collections: Vec::new(), index: Vec::new() };
        proof {
            assert(entry_map(r.index@) =~= flat(r.model()));
        }
        r
    }

    fn find_collection(&self, name: &String) -> (r: Option<usize>)
        ensures
            match r {
                Some(i) => 0 <= i < self.collections@.len() && self.collections@[i as int].name@
                    == name@,
                None => forall|i: int|
                    0 <= i < self.collections@.len() ==> (#[trigger] self.collections@[i].name@)
                        != name@,
            },
    {
        let mut i: usize = 0;
        while i < self.collections.len()
            invariant
                0 <= i <= self.collections@.len(),
                forall|j: int| 0 <= j < i ==> (#[trigger] self.collections@[j].name@) != name@,
            decreases self.collections@.len() - i,
        {
            if self.collections[i].name == *name {
                return Some(i);
            }
            i = i + 1;
        }
        None
    }

    fn find_record(rs: &Vec<Record>, k: &String) -> (r: Option<usize>)
        ensures
            match r {
                Some(j) => 0 <= j < rs@.len() && rs@[j as int].key@ == k@,
                None => forall|j: int| 0 <= j < rs@.len() ==> (#[trigger] rs@[j].key@) != k@,
            },
    {
        let mut j: usize = 0;
        while j < rs.len()
            invariant
                0 <= j <= rs@.len(),
                forall|a: int| 0 <= a < j ==> (#[trigger] rs@[a].key@) != k@,
            decreases rs@.len() - j,
        {
            if rs[j].key == *k {
                return Some(j);
            }
            j = j + 1;
        }
        None
    }

    fn find_entry(es: &Vec<SearchEntry>, t: &String, k: &String) -> (r: Option<usize>)
        ensures
            match r {
                Some(p) => 0 <= p < es@.len() && es@[p as int].table_name@ == t@ && es@[
                    p as int
                ].key@ == k@,
                None => forall|p: int|
                    0 <= p < es@.len() ==> !((#[trigger] es@[p].table_name@) == t@ && es@[p].key@
                        == k@),
            },
    {
        let mut p: usize = 0;
        while p < es.len()
            invariant
                0 <= p <= es@.len(),
                forall|a: int|
                    0 <= a < p ==> !((#[trigger] es@[a].table_name@) == t@ && es@[a].key@ == k@),
            decreases es@.len() - p,
        {
            if es[p].table_name == *t && es[p].key == *k {
                return Some(p);
            }
            p = p + 1;
        }
        None
    }

    /// Ensures the named collection is provisioned: its storage object and
    /// registry entry exist afterwards, and a present collection is left
    /// exactly as it is, so the call is idempotent and safe to repeat.
    pub fn ensure_collection(&mut self, name: &str)
        requires
            old(self).wf(),
        ensures
            final(self).wf(),
            final(self).model() == m_ensure(old(self).model(), spec_sanitized(name@)),
            final(self).index@ == old(self).index@,
            old(self).model().contains_key(spec_sanitized(name@)) ==> *final(self) == *old(self),
    {
        let t = sanitize_table_name(name);
        let found = self.find_collection(&t);
        match found {
            Some(_i) => {
                proof {
                    lemma_assoc_index(self.collections@, col_kf(), col_vf(), _i as int);
                }
            },
            None => {
                proof {
                    lemma_assoc_contains(self.collections@, col_kf(), col_vf(), t@);
                }
                let ghost cs0 = self.collections@;
                let ghost m0 = self.model();
                self.collections.push(Collection { name: t, records: Vec::new() });
                proof {
                    lemma_assoc_push(
                        cs0,
                        col_kf(),
                        col_vf(),
                        self.collections@.last(),
                    );
                    assert(rec_map(self.collections@.last().records@) =~= Map::<
                        Seq<char>,
                        Seq<char>,
                    >::empty());
                    assert(self.model() == m_ensure(m0, spec_sanitized(name@)));
                    assert forall|i: int, j: int|
                        0 <= i < j < self.collections@.len() implies col_kf()(
                        self.collections@[i],
                    ) != col_kf()(self.collections@[j]) by {
                        if j == self.collections@.len() - 1 {
                            assert(self.collections@[i] == cs0[i]);
                        } else {
                            assert(self.collections@[i] == cs0[i]);
                            assert(self.collections@[j] == cs0[j]);
                        }
                    }
                    assert(flat(self.model()) =~= flat(m0));
                    assert(entry_map(self.index@) == flat(self.model()));
                }
            },
        }
    }

    /// Stores a value under a hierarchical key: an upsert that provisions the
    /// collection first and writes through to the search index in the same
    /// step. A caller never distinguishes insert from update; `created_at`
    /// never changes once a record exists, and a fresh record starts with
    /// equal timestamps.
    pub fn set(&mut self, table: &str, key: &[String], value: &str)
        requires
            old(self).wf(),
        ensures
            final(self).wf(),
            final(self).model() == m_set(
                old(self).model(),
                spec_sanitized(table@),
                spec_joined(views_of(key@)),
                value@,
            ),
            old(self).collections@.len() <= final(self).collections@.len() <= old(self).collections@.len() + 1,
            forall|i: int|
                0 <= i < old(self).collections@.len() ==> (
                #[trigger] final(self).collections@[i].name@) == old(self).collections@[i].name@
                    && old(self).collections@[i].records@.len()
                    <= final(self).collections@[i].records@.len(),
            forall|i: int|
                0 <= i < old(self).collections@.len() && old(self).collections@[i].name@
                    != spec_sanitized(table@) ==> (#[trigger] final(self).collections@[i]) == old(self).collections@[i],
            forall|i: int, j: int|
                0 <= i < old(self).collections@.len() && 0 <= j < old(self).collections@[i].records@.len() ==> {
                    let r0 = old(self).collections@[i].records@[j];
                    let r1 = #[trigger] final(self).collections@[i].records@[j];
                    &&& r1.key@ == r0.key@
                    &&& r1.created_at == r0.created_at
                    &&& (!(old(self).collections@[i].name@ == spec_sanitized(table@) && r0.key@
                        == spec_joined(views_of(key@))) ==> r1 == r0)
                    &&& (old(self).collections@[i].name@ == spec_sanitized(table@) && r0.key@
                        == spec_joined(views_of(key@)) ==> r1.value@ == value@)
                },
            forall|i: int, j: int|
                0 <= i < final(self).collections@.len() && 0 <= j < final(self).collections@[i].records@.len() && !(i < old(self).collections@.len() && j < old(self).collections@[i].records@.len()) ==> {
                    let r1 = #[trigger] final(self).collections@[i].records@[j];
                    &&& final(self).collections@[i].name@ == spec_sanitized(table@)
                    &&& r1.key@ == spec_joined(views_of(key@))
                    &&& r1.value@ == value@
                    &&& r1.created_at == r1.updated_at
                },
    {
        let t = sanitize_table_name(table);
        let k = key_to_string(key);
        let now = now_seconds();
        let ghost m0 = self.model();
        let ghost t_s = t@;
        let ghost k_s = k@;
        let found = self.find_collection(&t);
        let ci: usize = match found {
            Some(i) => {
                proof {
                    lemma_assoc_index(self.collections@, col_kf(), col_vf(), i as int);
                }
                i
            },
            None => {
                proof {
                    lemma_assoc_contains(self.collections@, col_kf(), col_vf(), t_s);
                }
                let ghost cs0 = self.collections@;
                self.collections.push(Collection { name: t.clone(), records: Vec::new() });
                proof {
                    lemma_unique_push(cs0, col_kf(), self.collections@.last());
                    lemma_assoc_push(cs0, col_kf(), col_vf(), self.collections@.last());
                    assert(rec_map(self.collections@.last().records@) =~= Map::<
                        Seq<char>,
                        Seq<char>,
                    >::empty());
                }
                self.collections.len() - 1
            },
        };
        let ghost m1 = self.model();
        let ghost cs1 = self.collections@;
        proof {
            assert(m1 == m_ensure(m0, t_s));
            lemma_assoc_index(cs1, col_kf(), col_vf(), ci as int);
        }
        let ghost rs1 = self.collections@[ci as int].records@;
        let rj = Self::find_record(&self.collections[ci].records, &k);
        match rj {
            Some(j) => {
                let rec = &mut self.collections[ci].records[j];
                rec.value = String::from_str(value);
                rec.updated_at = now;
                proof {
                    let rec2 = self.collections@[ci as int].records@[j as int];
                    assert(self.collections@ =~= cs1.update(ci as int, self.collections@[ci as int]));
                    assert(self.collections@[ci as int].records@ =~= rs1.update(j as int, rec2));
                    lemma_unique_update(rs1, rec_kf(), j as int, rec2);
                    lemma_assoc_update(rs1, rec_kf(), rec_vf(), j as int, rec2);
                }
            },
            None => {
                proof {
                    lemma_assoc_contains(rs1, rec_kf(), rec_vf(), k_s);
                }
                self.collections[ci].records.push(
                    Record {
                        key: k.clone(),
                        value: String::from_str(value),
                        created_at: now,
                        updated_at: now,
                    },
                );
                proof {
                    let rec2 = self.collections@[ci as int].records@.last();
                    assert(self.collections@ =~= cs1.update(ci as int, self.collections@[ci as int]));
                    assert(self.collections@[ci as int].records@ =~= rs1.push(rec2));
                    lemma_unique_push(rs1, rec_kf(), rec2);
                    lemma_assoc_push(rs1, rec_kf(), rec_vf(), rec2);
                }
            },
        }
        proof {
            let col2 = self.collections@[ci as int];
            lemma_unique_update(cs1, col_kf(), ci as int, col2);
            lemma_assoc_update(cs1, col_kf(), col_vf(), ci as int, col2);
            assert(rec_map(col2.records@) == rec_map(rs1).insert(k_s, value@));
            assert(self.model() == m_set(m1, t_s, k_s, value@));
            assert(m_set(m1, t_s, k_s, value@) =~= m_set(m0, t_s, k_s, value@));
        }
        let ghost ix1 = self.index@;
        let pe = Self::find_entry(&self.index, &t, &k);
        match pe {
            Some(p) => {
                let e = &mut self.index[p];
                e.value = String::from_str(value);
                proof {
                    let e2 = self.index@[p as int];
                    assert(self.index@ =~= ix1.update(p as int, e2));
                    lemma_unique_update(ix1, entry_kf(), p as int, e2);
                    lemma_assoc_update(ix1, entry_kf(), entry_vf(), p as int, e2);
                }
            },
            None => {
                self.index.push(
                    SearchEntry {
                        table_name: t.clone(),
                        key: k.clone(),
                        value: String::from_str(value),
                    },
                );
                proof {
                    let e2 = self.index@.last();
                    assert(forall|a: int|
                        0 <= a < ix1.len() ==> entry_kf()(#[trigger] ix1[a]) != entry_kf()(e2));
                    lemma_unique_push(ix1, entry_kf(), e2);
                    lemma_assoc_push(ix1, entry_kf(), entry_vf(), e2);
                }
            },
        }
        proof {
            assert(entry_map(self.index@) == entry_map(ix1).insert((t_s, k_s), value@));
            lemma_flat_set(m0, t_s, k_s, value@);
            assert(entry_map(self.index@) == flat(self.model()));
        }
    }

    /// Removes the record under a key, and its search entry in the same
    /// step. Deletion is idempotent: an absent key is a no-op, not an error;
    /// like every write it provisions its collection first.
    pub fn delete(&mut self, table: &str, key: &[String])
        requires
            old(self).wf(),
        ensures
            final(self).wf(),
            final(self).model() == m_delete(
                old(self).model(),
                spec_sanitized(table@),
                spec_joined(views_of(key@)),
            ),
            entry_map(final(self).index@) == entry_map(old(self).index@).remove(
                (spec_sanitized(table@), spec_joined(views_of(key@))),
            ),
            old(self).model().contains_key(spec_sanitized(table@)) && m_get(
                old(self).model(),
                spec_sanitized(table@),
                spec_joined(views_of(key@)),
            ) is None ==> *final(self) == *old(self),
    {
        let t = sanitize_table_name(table);
        let k = key_to_string(key);
        let ghost m0 = self.model();
        let ghost t_s = t@;
        let ghost k_s = k@;
        let found = self.find_collection(&t);
        let ci: usize = match found {
            Some(i) => {
                proof {
                    lemma_assoc_index(self.collections@, col_kf(), col_vf(), i as int);
                }
                i
            },
            None => {
                proof {
                    lemma_assoc_contains(self.collections@, col_kf(), col_vf(), t_s);
                }
                let ghost cs0 = self.collections@;
                self.collections.push(Collection { name: t.clone(), records: Vec::new() });
                proof {
                    lemma_unique_push(cs0, col_kf(), self.collections@.last());
                    lemma_assoc_push(cs0, col_kf(), col_vf(), self.collections@.last());
                    assert(rec_map(self.collections@.last().records@) =~= Map::<
                        Seq<char>,
                        Seq<char>,
                    >::empty());
                }
                self.collections.len() - 1
            },
        };
        let ghost m1 = self.model();
        let ghost cs1 = self.collections@;
        proof {
            assert(m1 == m_ensure(m0, t_s));
            lemma_assoc_index(cs1, col_kf(), col_vf(), ci as int);
        }
        let ghost rs1 = self.collections@[ci as int].records@;
        let rj = Self::find_record(&self.collections[ci].records, &k);
        match rj {
            Some(j) => {
                proof {
                    lemma_assoc_index(rs1, rec_kf(), rec_vf(), j as int);
                }
                self.collections[ci].records.remove(j);
                proof {
                    let col2 = self.collections@[ci as int];
                    assert(self.collections@ =~= cs1.update(ci as int, col2));
                    lemma_unique_remove(rs1, rec_kf(), j as int);
                    lemma_assoc_remove(rs1, rec_kf(), rec_vf(), j as int);
                    lemma_unique_update(cs1, col_kf(), ci as int, col2);
                    lemma_assoc_update(cs1, col_kf(), col_vf(), ci as int, col2);
                    assert(self.model() == m1.insert(t_s, rec_map(rs1).remove(k_s)));
                    assert(self.model() =~= m_delete(m0, t_s, k_s));
                }
            },
            None => {
                proof {
                    lemma_assoc_contains(rs1, rec_kf(), rec_vf(), k_s);
                    assert(rec_map(rs1).remove(k_s) =~= rec_map(rs1));
                    assert(m1.insert(t_s, rec_map(rs1)) =~= m1);
                    assert(self.model() =~= m_delete(m0, t_s, k_s));
                }
            },
        }
        let ghost ix1 = self.index@;
        let pe = Self::find_entry(&self.index, &t, &k);
        match pe {
            Some(p) => {
                proof {
                    lemma_assoc_index(ix1, entry_kf(), entry_vf(), p as int);
                    assert(entry_map(ix1).contains_key((t_s, k_s)));
                    assert(flat(m0).contains_key((t_s, k_s)));
                    assert(m_get(m0, t_s, k_s) is Some);
                }
                self.index.remove(p);
                proof {
                    lemma_unique_remove(ix1, entry_kf(), p as int);
                    lemma_assoc_remove(ix1, entry_kf(), entry_vf(), p as int);
                    assert(entry_kf()(ix1[p as int]) == (t_s, k_s));
                }
            },
            None => {
                proof {
                    lemma_assoc_contains(ix1, entry_kf(), entry_vf(), (t_s, k_s));
                    assert(forall|a: int|
                        0 <= a < ix1.len() ==> entry_kf()(#[trigger] ix1[a]) != (t_s, k_s));
                    assert(entry_map(ix1).remove((t_s, k_s)) =~= entry_map(ix1));
                }
            },
        }
        proof {
            lemma_flat_delete(m0, t_s, k_s);
            assert(entry_map(self.index@) == flat(self.model()));
        }
    }

    /// Looks a key up in a collection. A miss — of the key, or of a
    /// collection that was never provisioned — is `NotFound`; a read never
    /// provisions, so the registry stays accurate.
    pub fn get(&self, table: &str, key: &[String]) -> (r: Result<String, KvError>)
        requires
            self.wf(),
        ensures
            get_post(*self, spec_sanitized(table@), spec_joined(views_of(key@)), r),
    {
        let t = sanitize_table_name(table);
        let k = key_to_string(key);
        match self.find_collection(&t) {
            None => {
                proof {
                    lemma_assoc_contains(self.collections@, col_kf(), col_vf(), t@);
                }
                Err(KvError::NotFound)
            },
            Some(ci) => {
                proof {
                    lemma_assoc_index(self.collections@, col_kf(), col_vf(), ci as int);
                }
                match Self::find_record(&self.collections[ci].records, &k) {
                    None => {
                        proof {
                            lemma_assoc_contains(
                                self.collections@[ci as int].records@,
                                rec_kf(),
                                rec_vf(),
                                k@,
                            );
                        }
                        Err(KvError::NotFound)
                    },
                    Some(j) => {
                        proof {
                            lemma_assoc_index(
                                self.collections@[ci as int].records@,
                                rec_kf(),
                                rec_vf(),
                                j as int,
                            );
                        }
                        Ok(self.collections[ci].records[j].value.clone())
                    },
                }
            },
        }
    }

    /// Lists the (key, value) pairs of a collection in storage order. An
    /// absent or empty collection yields the empty sequence, not an error,
    /// and a read never provisions.
    pub fn list(&self, table: &str) -> (r: Vec<(String, String)>)
        requires
            self.wf(),
        ensures
            list_post(*self, spec_sanitized(table@), r@),
    {
        let t = sanitize_table_name(table);
        match self.find_collection(&t) {
            None => {
                proof {
                    lemma_assoc_contains(self.collections@, col_kf(), col_vf(), t@);
                }
                Vec::new()
            },
            Some(ci) => {
                proof {
                    lemma_assoc_index(self.collections@, col_kf(), col_vf(), ci as int);
                }
                let rs = &self.collections[ci].records;
                let mut out: Vec<(String, String)> = Vec::new();
                let mut j: usize = 0;
                while j < rs.len()
                    invariant
                        0 <= j <= rs@.len(),
                        out@.len() == j,
                        rs@ == self.collections@[ci as int].records@,
                        0 <= ci < self.collections@.len(),
                        forall|a: int|
                            0 <= a < j ==> (#[trigger] out@[a]).0@ == rs@[a].key@ && out@[a].1@
                                == rs@[a].value@,
                    decreases rs@.len() - j,
                {
                    out.push((rs[j].key.clone(), rs[j].value.clone()));
                    j = j + 1;
                }
                proof {
                    assert forall|a: int|
                        0 <= a < out@.len() implies m_get(
                        self.model(),
                        spec_sanitized(table@),
                        (#[trigger] out@[a]).0@,
                    ) == Some(out@[a].1@) by {
                        lemma_assoc_index(
                            self.collections@[ci as int].records@,
                            rec_kf(),
                            rec_vf(),
                            a,
                        );
                    }
                }
                out
            },
        }
    }

    /// The names of all provisioned collections: exactly the registry, in
    /// registration order and without duplicates.
    pub fn tables(&self) -> (r: Vec<String>)
        requires
            self.wf(),
        ensures
            tables_post(*self, r@),
    {
        let mut out: Vec<String> = Vec::new();
        let mut i: usize = 0;
        while i < self.collections.len()
            invariant
                0 <= i <= self.collections@.len(),
                out@.len() == i,
                forall|a: int| 0 <= a < i ==> (#[trigger] out@[a])@ == self.collections@[a].name@,
            decreases self.collections@.len() - i,
        {
            out.push(self.collections[i].name.clone());
            i = i + 1;
        }
        proof {
            assert forall|t: Seq<char>| #[trigger]
                self.registry().contains(t) implies views_of(out@).contains(t) by {
                lemma_assoc_contains(self.collections@, col_kf(), col_vf(), t);
                let i = choose|i: int|
                    0 <= i < self.collections@.len() && col_kf()(
                        #[trigger] self.collections@[i],
                    ) == t;
                assert(views_of(out@)[i] == t);
            }
            assert forall|t: Seq<char>| views_of(out@).contains(t) implies self.registry().contains(
                t,
            ) by {
                let i = choose|i: int| 0 <= i < views_of(out@).len() && views_of(out@)[i] == t;
                lemma_assoc_index(self.collections@, col_kf(), col_vf(), i);
            }
        }
        out
    }

    /// The search hits of a query, in index order: every entry whose value's
    /// tokens include all of the query's tokens, across all collections. A
    /// query with no tokens is malformed and fails with `SearchFailed`
    /// rather than matching anything.
    pub fn search(&self, query: &str) -> (r: Result<Vec<SearchEntry>, KvError>)
        requires
            self.wf(),
        ensures
            search_post(*self, query@, r),
    {
        let qt = tokenize(query);
        if qt.len() == 0 {
            proof {
                assert(views_of(qt@) =~= Seq::<Seq<char>>::empty());
            }
            return Err(KvError::SearchFailed(String::from_str("query has no search tokens")));
        }
        let mut out: Vec<SearchEntry> = Vec::new();
        let mut p: usize = 0;
        proof {
            assert(views_of(qt@).len() == qt@.len());
            assert(entry_views(self.index@.subrange(0, 0)) =~= Seq::<
                (Seq<char>, Seq<char>, Seq<char>),
            >::empty());
            reveal(Seq::filter);
        }
        while p < self.index.len()
            invariant
                0 <= p <= self.index@.len(),
                views_of(qt@) == spec_tokens(query@),
                qt@.len() > 0,
                entry_views(out@) == entry_views(self.index@.subrange(0, p as int)).filter(
                    match_pred(query@),
                ),
            decreases self.index@.len() - p,
        {
            let e = &self.index[p];
            let ghost out0 = out@;
            let hit = text_matches(&qt, e.value.as_str());
            if hit {
                out.push(
                    SearchEntry {
                        table_name: e.table_name.clone(),
                        key: e.key.clone(),
                        value: e.value.clone(),
                    },
                );
            }
            proof {
                reveal(Seq::filter);
                let mp = match_pred(query@);
                let pre = self.index@.subrange(0, p as int);
                let ext = self.index@.subrange(0, p as int + 1);
                let ev = entry_view_f()(self.index@[p as int]);
                assert(entry_views(ext).drop_last() =~= entry_views(pre));
                assert(entry_views(ext).last() == ev);
                assert(hit == mp(ev));
                if hit {
                    assert(entry_views(out@) =~= entry_views(out0).push(ev));
                }
            }
            p = p + 1;
        }
        proof {
            assert(self.index@.subrange(0, self.index@.len() as int) =~= self.index@);
        }
        Ok(out)
    }
}

/// The view of one search entry: collection name, key, value.
pub open spec fn entry_view_f() -> spec_fn(SearchEntry) -> (Seq<char>, Seq<char>, Seq<char>) {
    |e: SearchEntry| (e.table_name@, e.key@, e.value@)
}

/// The views of a sequence of search entries.
pub open spec fn entry_views(es: Seq<SearchEntry>) -> Seq<(Seq<char>, Seq<char>, Seq<char>)> {
    es.map_values(entry_view_f())
}

/// Whether one search-entry view matches a query.
pub open spec fn match_pred(q: Seq<char>) -> spec_fn((Seq<char>, Seq<char>, Seq<char>)) -> bool {
    |ev: (Seq<char>, Seq<char>, Seq<char>)| value_matches(spec_tokens(q), ev.2)
}

/// What a search over a store returns: the views of the matching entries,
/// in index order.
pub open spec fn search_results(s: KvStore, q: Seq<char>) -> Seq<(Seq<char>, Seq<char>, Seq<char>)> {
    entry_views(s.index@).filter(match_pred(q))
}

/// What a read owes its caller: the stored value on a hit, `NotFound` on a
/// miss of either the key or the whole collection.
pub open spec fn get_post(s: KvStore, t: Seq<char>, k: Seq<char>, r: Result<String, KvError>) -> bool {
    match r {
        Ok(v) => m_get(s.model(), t, k) == Some(v@),
        Err(e) => m_get(s.model(), t, k) is None && e == KvError::NotFound,
    }
}

/// What a listing owes its caller: the (key, value) pairs of the collection
/// in storage order, or the empty sequence if the collection is absent.
pub open spec fn list_post(s: KvStore, t: Seq<char>, r: Seq<(String, String)>) -> bool {
    &&& (!s.model().contains_key(t) ==> r.len() == 0)
    &&& (s.model().contains_key(t) ==> exists|i: int|
        0 <= i < s.collections@.len() && (#[trigger] s.collections@[i].name@) == t && r.len()
            == s.collections@[i].records@.len() && (forall|j: int|
            0 <= j < r.len() ==> (#[trigger] r[j]).0@ == s.collections@[i].records@[j].key@
                && r[j].1@ == s.collections@[i].records@[j].value@))
    &&& (forall|j: int|
        0 <= j < r.len() ==> m_get(s.model(), t, (#[trigger] r[j]).0@) == Some(r[j].1@))
}

/// What the registry listing owes its caller: every provisioned name, in
/// registration order, without duplicates, and nothing else.
pub open spec fn tables_post(s: KvStore, r: Seq<String>) -> bool {
    &&& views_of(r).len() == s.collections@.len()
    &&& (forall|i: int|
        0 <= i < r.len() ==> (#[trigger] views_of(r)[i]) == s.collections@[i].name@)
    &&& (forall|i: int, j: int| 0 <= i < j < r.len() ==> views_of(r)[i] != views_of(r)[j])
    &&& (forall|t: Seq<char>| #[trigger] s.registry().contains(t) <==> views_of(r).contains(t))
}

/// What a search owes its caller: failure exactly on a tokenless query, and
/// otherwise the views of the matching entries in index order.
pub open spec fn search_post(s: KvStore, q: Seq<char>, r: Result<Vec<SearchEntry>, KvError>) -> bool {
    &&& (spec_tokens(q).len() == 0 <==> r is Err)
    &&& (r matches Err(e) ==> e matches KvError::SearchFailed(m) && m@
        == "query has no search tokens"@)
    &&& (r matches Ok(hits) ==> entry_views(hits@) == search_results(s, q))
}

/// Every element of a filtered sequence occurs in the sequence it filters.
proof fn lemma_filter_elem<A>(s: Seq<A>, pred: spec_fn(A) -> bool, i: int)
    requires
        0 <= i < s.filter(pred).len(),
    ensures
        s.contains(s.filter(pred)[i]),
    decreases s.len(),
{
    reveal(Seq::filter);
    if s.len() > 0 {
        let d = s.drop_last();
        let x = s.filter(pred)[i];
        if pred(s.last()) && i == s.filter(pred).len() - 1 {
            assert(s[s.len() - 1] == x);
        } else {
            assert(d.filter(pred)[i] == x);
            lemma_filter_elem(d, pred, i);
            let j = choose|j: int| 0 <= j < d.len() && d[j] == x;
            assert(s[j] == x);
        }
    }
}

/// A record stored under a matching value is among the search hits: a write
/// becomes visible to search in the same step that stores it.
pub proof fn lemma_search_finds_record(
    s: KvStore,
    q: Seq<char>,
    t: Seq<char>,
    k: Seq<char>,
    v: Seq<char>,
)
    requires
        s.wf(),
        m_get(s.model(), t, k) == Some(v),
        spec_tokens(q).len() > 0,
        value_matches(spec_tokens(q), v),
    ensures
        search_results(s, q).contains((t, k, v)),
{
    assert(flat(s.model()).contains_key((t, k)));
    assert(entry_map(s.index@).contains_key((t, k)));
    lemma_assoc_contains(s.index@, entry_kf(), entry_vf(), (t, k));
    let p = choose|p: int|
        0 <= p < s.index@.len() && entry_kf()(#[trigger] s.index@[p]) == (t, k);
    lemma_assoc_index(s.index@, entry_kf(), entry_vf(), p);
    assert(s.index@[p].value@ == v);
    assert(entry_views(s.index@)[p] == (t, k, v));
    assert(match_pred(q)((t, k, v)));
    entry_views(s.index@).lemma_filter_contains(match_pred(q), p);
}

/// After a key is deleted — or before it is ever written — no search, for
/// any query, returns an entry for that (collection, key).
pub proof fn lemma_absent_key_not_searched(s: KvStore, q: Seq<char>, t: Seq<char>, k: Seq<char>)
    requires
        s.wf(),
        m_get(s.model(), t, k) is None,
    ensures
        forall|i: int|
            0 <= i < search_results(s, q).len() ==> !((#[trigger] search_results(s, q)[i]).0 == t
                && search_results(s, q)[i].1 == k),
{
    let res = search_results(s, q);
    assert forall|i: int| 0 <= i < res.len() implies !((#[trigger] res[i]).0 == t && res[i].1
        == k) by {
        lemma_filter_elem(entry_views(s.index@), match_pred(q), i);
        let p = choose|p: int|
            0 <= p < entry_views(s.index@).len() && entry_views(s.index@)[p] == res[i];
        if res[i].0 == t && res[i].1 == k {
            assert(entry_kf()(s.index@[p]) == (t, k));
            lemma_assoc_index(s.index@, entry_kf(), entry_vf(), p);
            assert(entry_map(s.index@).contains_key((t, k)));
            assert(flat(s.model()).contains_key((t, k)));
        }
    }
}

} // verus!
