//! The metric store: a count for each metric identity.
//!
//! The counts live in a hash map keyed by owned identities. A lookup hashes the
//! borrowed identity and probes the map with that hash and the identity
//! equality, so that a count already present is found and updated without
//! building an owned identity; an owned one is built only for a new identity.

use vstd::prelude::*;
use hashbrown::hash_map::RawEntryMut;
use rustc_hash::FxBuildHasher;
use crate::dimensions::{same_text, view_hash, IdView, MetricId, MetricName, OwnedMetricName};

verus! {

/// The hash map that holds the counts of a store. Verus cannot declare the
/// map type itself, so it stands in a field that only trusted functions touch.
/// Every entry stands at the hash of its identity (`view_hash`), which the
/// functions below hand to the map when they insert and when it grows; and no
/// two entries have equal identities, since an entry is inserted only where
/// none equals it. So a probe with the hash and the equality of an identity
/// finds its entry exactly when there is one.
#[verifier::external_body]
#[derive(Debug)]
pub struct CountMap {
    table: hashbrown::HashMap<OwnedMetricName, u64, FxBuildHasher>,
}

/// The count held for each identity.
pub uninterp spec fn counts_of(m: CountMap) -> Map<IdView, u64>;

/// Whether `ids` and `vals` list the entries of `m`, each once.
pub open spec fn lists_counts(m: Map<IdView, u64>, ids: Seq<IdView>, vals: Seq<u64>) -> bool {
    &&& ids.len() == vals.len()
    &&& ids.no_duplicates()
    &&& forall|i: int| 0 <= i < ids.len() ==> #[trigger] m.contains_key(ids[i]) && m[ids[i]] == vals[i]
    &&& forall|id: IdView| #[trigger] m.contains_key(id) ==> ids.contains(id)
}

/// Relies on `hashbrown::HashMap::default`: a map with no entry.
#[verifier::external_body]
fn empty_map() -> (r: CountMap)
    ensures
        counts_of(r) =~= Map::empty(),
{
    CountMap { table: hashbrown::HashMap::default() }
}

/// Relies on `<hashbrown::HashMap as Clone>::clone`: a copy of every entry,
/// each at the same hash.
#[verifier::external_body]
fn copy_map(m: &CountMap) -> (r: CountMap)
    ensures
        counts_of(r) == counts_of(*m),
{
    CountMap { table: m.table.clone() }
}

/// Relies on `hashbrown`'s `raw_entry().from_hash`: with the hash of `id`, it
/// finds the entry whose identity equals `id`, if there is one.
#[verifier::external_body]
fn find_count(m: &CountMap, hash: u64, id: &MetricId) -> (r: Option<u64>)
    requires
        hash == view_hash(id@),
    ensures
        r == (if counts_of(*m).contains_key(id@) { Some(counts_of(*m)[id@]) } else { None }),
{
    m.table.raw_entry().from_hash(hash, |q| q.matches(id)).map(|(_, v)| *v)
}

/// Relies on `hashbrown`'s `raw_entry_mut().from_hash` and
/// `RawOccupiedEntryMut::insert`: the count of the entry whose identity equals
/// `id` is replaced; without such an entry nothing changes.
#[verifier::external_body]
fn set_count(m: &mut CountMap, hash: u64, id: &MetricId, value: u64) -> (found: bool)
    requires
        hash == view_hash(id@),
    ensures
        found == counts_of(*old(m)).contains_key(id@),
        counts_of(*final(m)) == (if found { counts_of(*old(m)).insert(id@, value) } else { counts_of(*old(m)) }),
{
    match m.table.raw_entry_mut().from_hash(hash, |q| q.matches(id)) {
        RawEntryMut::Occupied(mut e) => {
            e.insert(value);
            true
        },
        RawEntryMut::Vacant(_) => false,
    }
}

/// Relies on `hashbrown`'s `RawVacantEntryMut::insert_with_hasher`: a new
/// entry is stored at the given hash, and the map rehashes entries with
/// their own hash when it grows.
#[verifier::external_body]
fn insert_new(m: &mut CountMap, hash: u64, key: OwnedMetricName, value: u64)
    requires
        hash == view_hash(key@),
        !counts_of(*old(m)).contains_key(key@),
    ensures
        counts_of(*final(m)) == counts_of(*old(m)).insert(key@, value),
{
    if let RawEntryMut::Vacant(e) = m.table.raw_entry_mut().from_hash(hash, |q| q.same(&key)) {
        e.insert_with_hasher(hash, key, value, |k| k.hash_value());
    }
}

/// Relies on `hashbrown::HashMap::iter`: each entry is visited once.
#[verifier::external_body]
fn list_counts(m: &CountMap) -> (r: Vec<(MetricId, u64)>)
    ensures
        lists_counts(counts_of(*m), r@.map_values(|e: (MetricId, u64)| e.0@), r@.map_values(|e: (MetricId, u64)| e.1)),
{
    m.table.iter().map(|(k, v)| (k.id(), *v)).collect()
}

/// Relies on `hashbrown::HashMap::into_iter`: each entry is handed out once.
#[verifier::external_body]
fn drain_counts(m: CountMap) -> (r: Vec<(OwnedMetricName, u64)>)
    ensures
        lists_counts(counts_of(m), r@.map_values(|e: (OwnedMetricName, u64)| e.0@), r@.map_values(|e: (OwnedMetricName, u64)| e.1)),
{
    m.table.into_iter().collect()
}

/// The count of `id` in `m`, zero where it has none.
pub open spec fn count_in(m: Map<IdView, u64>, id: IdView) -> int {
    if m.contains_key(id) { m[id] as int } else { 0 }
}

/// What a lookup of `id` in `m` returns.
pub open spec fn lookup(m: Map<IdView, u64>, id: IdView) -> Option<u64> {
    if m.contains_key(id) { Some(m[id]) } else { None }
}

/// `m` after `delta` was added to the count of `id`.
pub open spec fn added(m: Map<IdView, u64>, id: IdView, delta: u64) -> Map<IdView, u64> {
    m.insert(id, (count_in(m, id) + delta) as u64)
}

/// Whether the counts of `a` and `b` can be summed without overflow.
pub open spec fn merge_fits(a: Map<IdView, u64>, b: Map<IdView, u64>) -> bool {
    forall|id: IdView| #[trigger] count_in(a, id) + count_in(b, id) <= u64::MAX
}

/// The counts of `a` and `b` summed identity by identity.
pub open spec fn merged(a: Map<IdView, u64>, b: Map<IdView, u64>) -> Map<IdView, u64> {
    Map::new(
        |id: IdView| a.contains_key(id) || b.contains_key(id),
        |id: IdView| (count_in(a, id) + count_in(b, id)) as u64,
    )
}

/// What an entry with identity `id` and count `c` adds to the total of `key`.
pub open spec fn share(id: IdView, c: u64, key: Seq<char>) -> int {
    if id.0 == key { c as int } else { 0 }
}

/// The sum of the counts of every entry of `m` whose key is `key`, whatever
/// its labels.
pub open spec fn dims_total(m: Map<IdView, u64>, key: Seq<char>) -> int
    decreases m.dom().len(),
{
    if m.dom().finite() && m.dom().len() > 0 {
        let id = m.dom().choose();
        share(id, m[id], key) + dims_total(m.remove(id), key)
    } else {
        0
    }
}

/// Whether some entry of `m` has the key `key`.
pub open spec fn has_key(m: Map<IdView, u64>, key: Seq<char>) -> bool {
    exists|id: IdView| #[trigger] m.contains_key(id) && id.0 == key
}

/// What a lookup of all the counts of `key` in `m` returns.
pub open spec fn lookup_all(m: Map<IdView, u64>, key: Seq<char>) -> Option<u64> {
    if has_key(m, key) { Some(dims_total(m, key) as u64) } else { None }
}

/// The sum over listed entries of what each adds to the total of `key`.
pub open spec fn listed_total(ids: Seq<IdView>, vals: Seq<u64>, key: Seq<char>) -> int
    decreases ids.len(),
{
    if ids.len() == 0 || vals.len() == 0 {
        0
    } else {
        listed_total(ids.drop_last(), vals.drop_last(), key) + share(ids.last(), vals.last(), key)
    }
}

/// A total does not depend on which entry is taken out first.
pub proof fn lemma_total_remove(m: Map<IdView, u64>, key: Seq<char>, x: IdView)
    requires
        m.dom().finite(),
        m.dom().contains(x),
    ensures
        dims_total(m, key) == share(x, m[x], key) + dims_total(m.remove(x), key),
    decreases m.dom().len(),
{
    let y = m.dom().choose();
    if y != x {
        lemma_total_remove(m.remove(y), key, x);
        lemma_total_remove(m.remove(x), key, y);
        assert(m.remove(y).remove(x) =~= m.remove(x).remove(y));
    }
}

/// A listing of the entries of `m` sums to the total of `m`.
pub proof fn lemma_listed_total(m: Map<IdView, u64>, ids: Seq<IdView>, vals: Seq<u64>, key: Seq<char>)
    requires
        lists_counts(m, ids, vals),
    ensures
        m.dom().finite(),
        listed_total(ids, vals, key) == dims_total(m, key),
    decreases ids.len(),
{
    if ids.len() == 0 {
        assert(m.dom() =~= Set::empty());
    } else {
        let x = ids.last();
        let m2 = m.remove(x);
        let ids2 = ids.drop_last();
        let vals2 = vals.drop_last();
        assert forall|i: int| 0 <= i < ids2.len() implies #[trigger] m2.contains_key(ids2[i]) && m2[ids2[i]] == vals2[i] by {
            assert(ids[i] == ids2[i]);
            assert(ids[i] != ids[ids.len() - 1]);
        }
        assert forall|id: IdView| #[trigger] m2.contains_key(id) implies ids2.contains(id) by {
            let j = choose|j: int| 0 <= j < ids.len() && ids[j] == id;
            assert(j != ids.len() - 1);
            assert(ids2[j] == id);
        }
        lemma_listed_total(m2, ids2, vals2, key);
        assert(m.dom() =~= m2.dom().insert(x));
        assert(m.contains_key(ids[ids.len() - 1]));
        lemma_total_remove(m, key, x);
    }
}

/// A prefix of a listing sums to at most the whole listing, and to at least zero.
proof fn lemma_listed_prefix(m: Map<IdView, u64>, ids: Seq<IdView>, vals: Seq<u64>, key: Seq<char>)
    requires
        ids.len() == vals.len(),
    ensures
        forall|j: int| 0 <= j <= ids.len() ==> 0 <= #[trigger] listed_total(ids.take(j), vals.take(j), key) <= listed_total(ids, vals, key),
    decreases ids.len(),
{
    if ids.len() > 0 {
        let ids2 = ids.drop_last();
        let vals2 = vals.drop_last();
        lemma_listed_prefix(m, ids2, vals2, key);
        assert forall|j: int| 0 <= j <= ids.len() implies 0 <= #[trigger] listed_total(ids.take(j), vals.take(j), key) <= listed_total(ids, vals, key) by {
            assert(ids2.take(ids2.len() as int) =~= ids2);
            assert(vals2.take(vals2.len() as int) =~= vals2);
            assert(0 <= listed_total(ids2.take(ids2.len() as int), vals2.take(vals2.len() as int), key));
            assert(listed_total(ids, vals, key) == listed_total(ids2, vals2, key) + share(ids.last(), vals.last(), key));
            if j == ids.len() {
                assert(ids.take(j) =~= ids);
                assert(vals.take(j) =~= vals);
            } else {
                assert(ids.take(j) =~= ids2.take(j));
                assert(vals.take(j) =~= vals2.take(j));
            }
        }
    }
}

/// A map of counts keyed by metric identity.
#[derive(Debug)]
pub struct MetricStore {
    buf: CountMap,
}

impl View for MetricStore {
    type V = Map<IdView, u64>;

    closed spec fn view(&self) -> Map<IdView, u64> {
        counts_of(self.buf)
    }
}

impl Clone for MetricStore {
    fn clone(&self) -> (r: Self)
        ensures
            r@ == self@,
    {
        MetricStore { buf: copy_map(&self.buf) }
    }
}

impl Default for MetricStore {
    fn default() -> (r: Self)
        ensures
            r@ == Map::<IdView, u64>::empty(),
    {
        MetricStore { buf: empty_map() }
    }
}

impl MetricStore {
    /// An empty store.
    pub fn new() -> (r: Self)
        ensures
            r@ == Map::<IdView, u64>::empty(),
    {
        MetricStore { buf: empty_map() }
    }

    /// Adds `val` to the count of `key`; an identity not seen before starts at
    /// `val`. Only a new identity allocates.
    pub fn update(&mut self, key: &MetricName, val: u64)
        requires
            count_in(old(self)@, key@) + val <= u64::MAX,
        ensures
            final(self)@ == added(old(self)@, key@, val),
    {
        let id = key.id();
        let hash = id.hash_value();
        match find_count(&self.buf, hash, &id) {
            Some(c) => {
                set_count(&mut self.buf, hash, &id, c + val);
            },
            None => {
                let owned = key.clone_into_owned();
                insert_new(&mut self.buf, hash, owned, val);
            },
        }
    }

    /// The count of `key`, if it was ever recorded.
    pub fn get_counter(&self, key: &MetricName) -> (r: Option<u64>)
        ensures
            r == lookup(self@, key@),
    {
        let id = key.id();
        let hash = id.hash_value();
        find_count(&self.buf, hash, &id)
    }

    /// The sum of the counts of every identity with key `key`, whatever its
    /// labels; `None` where no identity has that key.
    pub fn get_counter_all_dim(&self, key: &'static str) -> (r: Option<u64>)
        requires
            dims_total(self@, key@) <= u64::MAX,
        ensures
            r == lookup_all(self@, key@),
    {
        let entries = list_counts(&self.buf);
        let ghost ids = entries@.map_values(|e: (MetricId, u64)| e.0@);
        let ghost vals = entries@.map_values(|e: (MetricId, u64)| e.1);
        proof {
            lemma_listed_total(self@, ids, vals, key@);
            lemma_listed_prefix(self@, ids, vals, key@);
        }
        let mut total: u64 = 0;
        let mut found = false;
        let mut i: usize = 0;
        while i < entries.len()
            invariant
                i <= entries.len(),
                ids == entries@.map_values(|e: (MetricId, u64)| e.0@),
                vals == entries@.map_values(|e: (MetricId, u64)| e.1),
                lists_counts(self@, ids, vals),
                dims_total(self@, key@) <= u64::MAX,
                listed_total(ids, vals, key@) == dims_total(self@, key@),
                forall|j: int| 0 <= j <= ids.len() ==> 0 <= #[trigger] listed_total(ids.take(j), vals.take(j), key@) <= listed_total(ids, vals, key@),
                total == listed_total(ids.take(i as int), vals.take(i as int), key@),
                found == exists|j: int| 0 <= j < i && (#[trigger] ids[j]).0 == key@,
            decreases entries.len() - i,
        {
            let (id, c) = entries[i];
            assert(ids[i as int] == id@ && vals[i as int] == c);
            assert(ids.take(i + 1).drop_last() =~= ids.take(i as int));
            assert(vals.take(i + 1).drop_last() =~= vals.take(i as int));
            assert(listed_total(ids.take(i + 1), vals.take(i + 1), key@) <= listed_total(ids, vals, key@));
            if same_text(id.key, key) {
                total = total + c;
                found = true;
            }
            assert(found == exists|j: int| 0 <= j < i + 1 && (#[trigger] ids[j]).0 == key@);
            i += 1;
        }
        let res = if found { Some(total) } else { None };
        assert(ids.take(ids.len() as int) =~= ids);
        assert(vals.take(vals.len() as int) =~= vals);
        proof {
            if has_key(self@, key@) {
                let id = choose|id: IdView| #[trigger] self@.contains_key(id) && id.0 == key@;
                let j = choose|j: int| 0 <= j < ids.len() && ids[j] == id;
                assert(ids[j].0 == key@);
            }
            if exists|j: int| 0 <= j < ids.len() && (#[trigger] ids[j]).0 == key@ {
                let j = choose|j: int| 0 <= j < ids.len() && (#[trigger] ids[j]).0 == key@;
                assert(self@.contains_key(ids[j]));
            }
        }
        res
    }

    /// The total of `key`, whatever the labels, where it fits in `u64`;
    /// `None` where it does not.
    pub fn checked_total(&self, key: &'static str) -> (r: Option<u64>)
        ensures
            self@.dom().finite(),
            dims_total(self@, key@) >= 0,
            r == (if dims_total(self@, key@) <= u64::MAX { Some(dims_total(self@, key@) as u64) } else { None }),
    {
        let entries = list_counts(&self.buf);
        let ghost ids = entries@.map_values(|e: (MetricId, u64)| e.0@);
        let ghost vals = entries@.map_values(|e: (MetricId, u64)| e.1);
        proof {
            lemma_listed_total(self@, ids, vals, key@);
            lemma_listed_prefix(self@, ids, vals, key@);
            assert(ids.take(ids.len() as int) =~= ids);
            assert(vals.take(vals.len() as int) =~= vals);
        }
        let mut total: u64 = 0;
        let mut i: usize = 0;
        while i < entries.len()
            invariant
                i <= entries.len(),
                ids == entries@.map_values(|e: (MetricId, u64)| e.0@),
                vals == entries@.map_values(|e: (MetricId, u64)| e.1),
                listed_total(ids, vals, key@) == dims_total(self@, key@),
                forall|j: int| 0 <= j <= ids.len() ==> 0 <= #[trigger] listed_total(ids.take(j), vals.take(j), key@) <= listed_total(ids, vals, key@),
                total == listed_total(ids.take(i as int), vals.take(i as int), key@),
            decreases entries.len() - i,
        {
            let (id, c) = entries[i];
            assert(ids[i as int] == id@ && vals[i as int] == c);
            assert(ids.take(i + 1).drop_last() =~= ids.take(i as int));
            assert(vals.take(i + 1).drop_last() =~= vals.take(i as int));
            assert(listed_total(ids.take(i + 1), vals.take(i + 1), key@) <= listed_total(ids, vals, key@));
            if same_text(id.key, key) {
                match total.checked_add(c) {
                    Some(t) => {
                        total = t;
                    },
                    None => {
                        return None;
                    },
                }
            }
            i += 1;
        }
        Some(total)
    }

    /// Whether merging `other` into this store keeps every count within `u64`.
    pub fn fits_merge(&self, other: &MetricStore) -> (r: bool)
        ensures
            r == merge_fits(self@, other@),
    {
        let entries = list_counts(&other.buf);
        let ghost ids = entries@.map_values(|e: (MetricId, u64)| e.0@);
        let ghost vals = entries@.map_values(|e: (MetricId, u64)| e.1);
        let mut i: usize = 0;
        while i < entries.len()
            invariant
                i <= entries.len(),
                ids == entries@.map_values(|e: (MetricId, u64)| e.0@),
                vals == entries@.map_values(|e: (MetricId, u64)| e.1),
                lists_counts(other@, ids, vals),
                forall|j: int| 0 <= j < i ==> #[trigger] count_in(self@, ids[j]) + count_in(other@, ids[j]) <= u64::MAX,
            decreases entries.len() - i,
        {
            let (id, c) = entries[i];
            assert(ids[i as int] == id@ && vals[i as int] == c);
            assert(other@.contains_key(ids[i as int]));
            let hash = id.hash_value();
            match find_count(&self.buf, hash, &id) {
                Some(mine) => {
                    if mine > u64::MAX - c {
                        assert(count_in(self@, ids[i as int]) + count_in(other@, ids[i as int]) > u64::MAX);
                        return false;
                    }
                },
                None => {},
            }
            i += 1;
        }
        assert forall|id: IdView| #[trigger] count_in(self@, id) + count_in(other@, id) <= u64::MAX by {
            if other@.contains_key(id) {
                let j = choose|j: int| 0 <= j < ids.len() && ids[j] == id;
                assert(count_in(self@, ids[j]) + count_in(other@, ids[j]) <= u64::MAX);
            }
        }
        true
    }

    /// Adds every count of `other` to the count of the same identity here;
    /// an identity new to this store is moved over, not copied.
    pub fn merge(&mut self, other: Self)
        requires
            merge_fits(old(self)@, other@),
        ensures
            final(self)@ == merged(old(self)@, other@),
    {
        let ghost start = self@;
        let ghost theirs = other@;
        let mut entries = drain_counts(other.buf);
        let ghost all = entries@;
        let ghost ids = all.map_values(|e: (OwnedMetricName, u64)| e.0@);
        let ghost vals = all.map_values(|e: (OwnedMetricName, u64)| e.1);
        while entries.len() > 0
            invariant
                entries.len() <= all.len(),
                entries@ == all.take(entries.len() as int),
                ids == all.map_values(|e: (OwnedMetricName, u64)| e.0@),
                vals == all.map_values(|e: (OwnedMetricName, u64)| e.1),
                lists_counts(theirs, ids, vals),
                merge_fits(start, theirs),
                forall|id: IdView| #[trigger] self@.contains_key(id) <==> (start.contains_key(id)
                    || exists|j: int| entries.len() <= j < all.len() && ids[j] == id),
                forall|id: IdView| #[trigger] count_in(self@, id) == count_in(start, id)
                    + (if (exists|j: int| entries.len() <= j < all.len() && ids[j] == id) { theirs[id] as int } else { 0 }),
            decreases entries.len(),
        {
            let ghost n = entries.len() - 1;
            let (key, c) = entries.pop().unwrap();
            assert(ids[n] == key@ && vals[n] == c);
            assert(0 <= n < ids.len());
            assert(lists_counts(theirs, ids, vals));
            assert(theirs.contains_key(ids[n as int]) && theirs[ids[n as int]] == vals[n as int]);
            assert(!exists|j: int| n + 1 <= j < all.len() && ids[j] == key@);
            let ghost before = self@;
            let id = key.id();
            let hash = id.hash_value();
            match find_count(&self.buf, hash, &id) {
                Some(mine) => {
                    assert(count_in(before, key@) == count_in(start, key@));
                    assert(count_in(start, key@) + count_in(theirs, key@) <= u64::MAX);
                    set_count(&mut self.buf, hash, &id, mine + c);
                },
                None => {
                    insert_new(&mut self.buf, hash, key, c);
                },
            }
            assert forall|x: IdView| #[trigger] self@.contains_key(x) <==> (start.contains_key(x)
                || exists|j: int| n <= j < all.len() && ids[j] == x) by {
                if x != ids[n] && exists|j: int| n <= j < all.len() && ids[j] == x {
                    let j = choose|j: int| n <= j < all.len() && ids[j] == x;
                    assert(j != n);
                }
            }
            assert forall|x: IdView| #[trigger] count_in(self@, x) == count_in(start, x)
                + (if (exists|j: int| n <= j < all.len() && ids[j] == x) { theirs[x] as int } else { 0 }) by {
                assert(count_in(before, x) == count_in(start, x)
                    + (if (exists|j: int| n + 1 <= j < all.len() && ids[j] == x) { theirs[x] as int } else { 0 }));
                if x != ids[n] && exists|j: int| n <= j < all.len() && ids[j] == x {
                    let j = choose|j: int| n <= j < all.len() && ids[j] == x;
                    assert(j != n);
                }
            }
        }
        assert forall|x: IdView| self@.contains_key(x) implies self@[x] == merged(start, theirs)[x] by {
            assert(count_in(self@, x) == count_in(start, x)
                + (if (exists|j: int| 0 <= j < all.len() && ids[j] == x) { theirs[x] as int } else { 0 }));
            if theirs.contains_key(x) {
                assert(ids.contains(x));
            }
        }
        assert forall|x: IdView| #[trigger] self@.contains_key(x) <==> merged(start, theirs).contains_key(x) by {
            if theirs.contains_key(x) {
                assert(ids.contains(x));
            }
        }
        assert(self@ =~= merged(start, theirs));
    }
}

} // verus!
