//! Laws that relate several operations of the library.

use vstd::prelude::*;
use crate::dimensions::{view_hash, IdView, MetricName, OwnedMetricName};
use crate::store::{added, count_in, dims_total, has_key, lemma_total_remove, lookup_all, merge_fits, merged, share, MetricStore};

verus! {

/// A borrowed identity and the owned identity it was converted into
/// (`clone_into_owned` keeps the key, label names and surrogates) hash alike,
/// so a borrowed identity finds the owned entry that it was stored as.
pub proof fn lemma_hash_consistency(name: MetricName, owned: OwnedMetricName)
    requires
        owned@ == name@,
    ensures
        view_hash(owned@) == view_hash(name@),
{
}

/// Merging stores is commutative and associative: whatever the order in which
/// three stores are merged, each identity ends with the same count.
pub proof fn lemma_merge_order(a: MetricStore, b: MetricStore, c: MetricStore)
    requires
        forall|id: IdView| #[trigger] count_in(a@, id) + count_in(b@, id) + count_in(c@, id) <= u64::MAX,
    ensures
        merged(a@, b@) == merged(b@, a@),
        merged(merged(a@, b@), c@) == merged(a@, merged(b@, c@)),
{
    assert(merged(a@, b@) =~= merged(b@, a@));
    assert forall|id: IdView| #[trigger] merged(merged(a@, b@), c@).contains_key(id) implies
        merged(merged(a@, b@), c@)[id] == merged(a@, merged(b@, c@))[id] by {
        assert(count_in(a@, id) + count_in(b@, id) + count_in(c@, id) <= u64::MAX);
    }
    assert(merged(merged(a@, b@), c@) =~= merged(a@, merged(b@, c@)));
}

/// Adding `delta` to the count of `id` raises the total of `key` by `delta`
/// where `id` has that key, and leaves it alone otherwise.
pub proof fn lemma_added_total(m: Map<IdView, u64>, id: IdView, delta: u64, key: Seq<char>)
    requires
        m.dom().finite(),
        count_in(m, id) + delta <= u64::MAX,
    ensures
        added(m, id, delta).dom().finite(),
        dims_total(added(m, id, delta), key) == dims_total(m, key) + share(id, delta, key),
{
    let a = added(m, id, delta);
    lemma_total_remove(a, key, id);
    if m.contains_key(id) {
        lemma_total_remove(m, key, id);
        assert(a.remove(id) =~= m.remove(id));
    } else {
        assert(a.remove(id) =~= m);
    }
}

/// The total of `key` after a merge is the sum of the two totals.
pub proof fn lemma_merged_total(a: Map<IdView, u64>, b: Map<IdView, u64>, key: Seq<char>)
    requires
        a.dom().finite(),
        b.dom().finite(),
        merge_fits(a, b),
    ensures
        merged(a, b).dom().finite(),
        dims_total(merged(a, b), key) == dims_total(a, key) + dims_total(b, key),
    decreases b.dom().len(),
{
    if b.dom().len() == 0 {
        assert(b.dom() =~= Set::empty());
        assert(merged(a, b) =~= a);
        assert(dims_total(b, key) == 0);
    } else {
        let x = b.dom().choose();
        let rest = b.remove(x);
        assert(merge_fits(a, rest)) by {
            assert forall|id: IdView| #[trigger] count_in(a, id) + count_in(rest, id) <= u64::MAX by {
                assert(count_in(a, id) + count_in(b, id) <= u64::MAX);
            }
        }
        lemma_merged_total(a, rest, key);
        let m = merged(a, rest);
        assert(count_in(a, x) + count_in(b, x) <= u64::MAX);
        assert(count_in(m, x) == count_in(a, x));
        lemma_added_total(m, x, b[x], key);
        assert(added(m, x, b[x]) =~= merged(a, b));
        lemma_total_remove(b, key, x);
    }
}

/// The counts after one increment of `delta` under each identity of `ids`,
/// in order.
pub open spec fn recorded(m: Map<IdView, u64>, ids: Seq<IdView>, delta: u64) -> Map<IdView, u64>
    decreases ids.len(),
{
    if ids.len() == 0 {
        m
    } else {
        added(recorded(m, ids.drop_last(), delta), ids.last(), delta)
    }
}

/// A batch that starts empty and takes one increment of `delta` under each
/// identity of `ids`, all with the key `key` but with any labels, totals
/// `ids.len() * delta` under `key`; with at least one increment a lookup of
/// all its counts under `key` finds that total.
pub proof fn lemma_batch_total_any_labels(ids: Seq<IdView>, delta: u64, key: Seq<char>)
    requires
        ids.len() * delta <= u64::MAX,
        forall|i: int| 0 <= i < ids.len() ==> (#[trigger] ids[i]).0 == key,
    ensures
        recorded(Map::empty(), ids, delta).dom().finite(),
        dims_total(recorded(Map::empty(), ids, delta), key) == ids.len() * delta,
        forall|id: IdView| #[trigger] count_in(recorded(Map::empty(), ids, delta), id) <= ids.len() * delta,
        lookup_all(recorded(Map::empty(), ids, delta), key) == (if ids.len() > 0 { Some((ids.len() * delta) as u64) } else { None }),
    decreases ids.len(),
{
    let m = recorded(Map::empty(), ids, delta);
    if ids.len() == 0 {
        assert(m.dom() =~= Set::empty());
        assert(!has_key(m, key));
    } else {
        let prev = ids.drop_last();
        let n = ids.len();
        assert((n - 1) * delta + delta == n * delta) by (nonlinear_arith);
        assert((n - 1) * delta <= n * delta) by (nonlinear_arith)
            requires
                n >= 1,
        ;
        assert forall|i: int| 0 <= i < prev.len() implies (#[trigger] prev[i]).0 == key by {
            assert(prev[i] == ids[i]);
        }
        lemma_batch_total_any_labels(prev, delta, key);
        let pm = recorded(Map::empty(), prev, delta);
        assert(count_in(pm, ids.last()) <= (n - 1) * delta);
        lemma_added_total(pm, ids.last(), delta, key);
        assert(ids[n - 1].0 == key);
        assert forall|id: IdView| #[trigger] count_in(m, id) <= n * delta by {
            assert(count_in(pm, id) <= (n - 1) * delta);
        }
        assert(m.contains_key(ids.last()));
        assert(has_key(m, key));
    }
}

/// The counts after merging each of `ms` in order into an empty store.
pub open spec fn merged_all(ms: Seq<Map<IdView, u64>>) -> Map<IdView, u64>
    decreases ms.len(),
{
    if ms.len() == 0 {
        Map::empty()
    } else {
        merged(merged_all(ms.drop_last()), ms.last())
    }
}

/// The sum of the counts of `id` over `ms`.
pub open spec fn count_sum(ms: Seq<Map<IdView, u64>>, id: IdView) -> int
    decreases ms.len(),
{
    if ms.len() == 0 {
        0
    } else {
        count_sum(ms.drop_last(), id) + count_in(ms.last(), id)
    }
}

/// Whether some map of `ms` holds `id`.
pub open spec fn held_in(ms: Seq<Map<IdView, u64>>, id: IdView) -> bool {
    exists|i: int| 0 <= i < ms.len() && (#[trigger] ms[i]).contains_key(id)
}

proof fn lemma_merged_all_pointwise(ms: Seq<Map<IdView, u64>>, id: IdView)
    requires
        count_sum(ms, id) <= u64::MAX,
    ensures
        count_in(merged_all(ms), id) == count_sum(ms, id),
        merged_all(ms).contains_key(id) == held_in(ms, id),
    decreases ms.len(),
{
    if ms.len() > 0 {
        let prev = ms.drop_last();
        assert(count_in(ms.last(), id) >= 0);
        lemma_merged_all_pointwise(prev, id);
        assert(count_sum(prev, id) >= 0) by {
            lemma_count_sum_nonneg(prev, id);
        }
        if held_in(ms, id) && !ms.last().contains_key(id) {
            let i = choose|i: int| 0 <= i < ms.len() && (#[trigger] ms[i]).contains_key(id);
            assert(prev[i] == ms[i]);
        }
        if held_in(prev, id) {
            let i = choose|i: int| 0 <= i < prev.len() && (#[trigger] prev[i]).contains_key(id);
            assert(ms[i] == prev[i]);
        }
        assert(ms[ms.len() - 1] == ms.last());
    }
}

proof fn lemma_count_sum_nonneg(ms: Seq<Map<IdView, u64>>, id: IdView)
    ensures
        count_sum(ms, id) >= 0,
    decreases ms.len(),
{
    if ms.len() > 0 {
        lemma_count_sum_nonneg(ms.drop_last(), id);
    }
}

proof fn lemma_count_sum_remove(ms: Seq<Map<IdView, u64>>, j: int, id: IdView)
    requires
        0 <= j < ms.len(),
    ensures
        count_sum(ms, id) == count_sum(ms.remove(j), id) + count_in(ms[j], id),
    decreases ms.len(),
{
    if j == ms.len() - 1 {
        assert(ms.remove(j) =~= ms.drop_last());
    } else {
        lemma_count_sum_remove(ms.drop_last(), j, id);
        assert(ms.remove(j).drop_last() =~= ms.drop_last().remove(j));
        assert(ms.remove(j).last() == ms.last());
    }
}

proof fn lemma_count_sum_permuted(ms: Seq<Map<IdView, u64>>, ms2: Seq<Map<IdView, u64>>, id: IdView)
    requires
        ms2.to_multiset() == ms.to_multiset(),
    ensures
        count_sum(ms2, id) == count_sum(ms, id),
    decreases ms.len(),
{
    broadcast use vstd::seq_lib::group_to_multiset_ensures;
    if ms.len() == 0 {
        vstd::seq_lib::to_multiset_len(ms);
        vstd::seq_lib::to_multiset_len(ms2);
        assert(ms2 =~= Seq::<Map<IdView, u64>>::empty());
    } else {
        let x = ms.last();
        let prev = ms.drop_last();
        assert(ms =~= prev.push(x));
        vstd::seq_lib::to_multiset_build(prev, x);
        vstd::seq_lib::to_multiset_contains(ms2, x);
        assert(ms2.to_multiset().count(x) > 0);
        let j = choose|j: int| 0 <= j < ms2.len() && ms2[j] == x;
        vstd::seq_lib::to_multiset_remove(ms2, j);
        assert(ms2.remove(j).to_multiset() =~= prev.to_multiset());
        lemma_count_sum_permuted(prev, ms2.remove(j), id);
        lemma_count_sum_remove(ms2, j, id);
    }
}

proof fn lemma_held_permuted(ms: Seq<Map<IdView, u64>>, ms2: Seq<Map<IdView, u64>>, id: IdView)
    requires
        ms2.to_multiset() == ms.to_multiset(),
        held_in(ms, id),
    ensures
        held_in(ms2, id),
{
    let i = choose|i: int| 0 <= i < ms.len() && (#[trigger] ms[i]).contains_key(id);
    vstd::seq_lib::to_multiset_contains(ms, ms[i]);
    vstd::seq_lib::to_multiset_contains(ms2, ms[i]);
    assert(ms.contains(ms[i]));
    let j = choose|j: int| 0 <= j < ms2.len() && ms2[j] == ms[i];
    assert(ms2[j].contains_key(id));
}

/// Merging batches in any order gives the same counts: where `ms2` holds the
/// batches of `ms` in another order and no sum overflows, merging either
/// sequence one batch after another into an empty store ends alike.
pub proof fn lemma_merge_any_order(ms: Seq<Map<IdView, u64>>, ms2: Seq<Map<IdView, u64>>)
    requires
        ms2.to_multiset() == ms.to_multiset(),
        forall|id: IdView| #[trigger] count_sum(ms, id) <= u64::MAX,
    ensures
        merged_all(ms2) == merged_all(ms),
{
    assert forall|id: IdView| #[trigger] merged_all(ms2).contains_key(id) == merged_all(ms).contains_key(id)
        && count_in(merged_all(ms2), id) == count_in(merged_all(ms), id) by {
        assert(count_sum(ms, id) <= u64::MAX);
        lemma_count_sum_permuted(ms, ms2, id);
        lemma_merged_all_pointwise(ms, id);
        lemma_merged_all_pointwise(ms2, id);
        if held_in(ms, id) {
            lemma_held_permuted(ms, ms2, id);
        }
        if held_in(ms2, id) {
            lemma_held_permuted(ms2, ms, id);
        }
    }
    assert(merged_all(ms2) =~= merged_all(ms));
}

} // verus!
