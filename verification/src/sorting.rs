//! Sorting, done by `rayon` and by the standard library.

use vstd::prelude::*;
use rayon::slice::ParallelSliceMut;
use crate::data::PathData;

verus! {

/// Whether `records` is in order of modification time, oldest first.
pub open spec fn ordered_by_time(records: Seq<PathData>) -> bool {
    forall|earlier: int, later: int|
        0 <= earlier <= later < records.len() ==> records[earlier].system_time
            <= records[later].system_time
}

/// Whether the first parts of `ranked` do not decrease.
pub open spec fn ordered_by_rank(ranked: Seq<(usize, usize)>) -> bool {
    forall|earlier: int, later: int|
        0 <= earlier <= later < ranked.len() ==> ranked[earlier].0 <= ranked[later].0
}

/// `par_sort_unstable_by_key` of `rayon`, with the modification time as
/// the key: the records are rearranged, none is added or lost, and
/// afterwards the times do not decrease. Records of one time may come in
/// any order.
#[verifier::external_body]
pub(crate) fn sort_by_time(records: &mut Vec<PathData>)
    ensures
        final(records)@.to_multiset() == old(records)@.to_multiset(),
        ordered_by_time(final(records)@),
{
    records.par_sort_unstable_by_key(|pathdata| pathdata.system_time);
}

/// `sort_unstable_by_key` of slices, with the first part of each pair as
/// the key: the pairs are rearranged, none is added or lost, and afterwards
/// the first parts do not decrease. Pairs of one key may come in any order.
#[verifier::external_body]
pub(crate) fn sort_by_rank(ranked: &mut Vec<(usize, usize)>)
    ensures
        final(ranked)@.to_multiset() == old(ranked)@.to_multiset(),
        ordered_by_rank(final(ranked)@),
{
    ranked.sort_unstable_by_key(|entry| entry.0);
}

/// Two sequences with the same entries, each as often, hold the same
/// values.
pub proof fn lemma_same_entries<T>(first: Seq<T>, second: Seq<T>)
    requires
        first.to_multiset() == second.to_multiset(),
    ensures
        first.len() == second.len(),
        forall|value: T| first.contains(value) <==> second.contains(value),
{
    vstd::seq_lib::to_multiset_len(first);
    vstd::seq_lib::to_multiset_len(second);
    assert forall|value: T| first.contains(value) <==> second.contains(value) by {
        first.to_multiset_ensures();
        second.to_multiset_ensures();
        assert(first.contains(value) <==> first.to_multiset().count(value) > 0);
        assert(second.contains(value) <==> second.to_multiset().count(value) > 0);
    }
}

/// A rearrangement of a sequence without duplicates has none either.
pub proof fn lemma_no_duplicates_kept<T>(first: Seq<T>, second: Seq<T>)
    requires
        first.to_multiset() == second.to_multiset(),
        first.no_duplicates(),
    ensures
        second.no_duplicates(),
{
    first.lemma_multiset_has_no_duplicates();
    second.lemma_multiset_has_no_duplicates_conv();
}

} // verus!
