//! Runs of neighbours with one name, found by `itertools`.

use vstd::prelude::*;
use itertools::Itertools;

verus! {

/// The names of `names` as plain values.
pub open spec fn name_views(names: Seq<Option<Vec<u8>>>) -> Seq<Option<Seq<u8>>> {
    names.map_values(
        |name: Option<Vec<u8>>|
            match name {
                Some(bytes) => Some(bytes@),
                None => None,
            },
    )
}

/// The groups of `groups` as plain values.
pub open spec fn group_views(groups: Seq<Vec<usize>>) -> Seq<Seq<usize>> {
    groups.map_values(|group: Vec<usize>| group@)
}

/// The positions from zero up to `count`, in order.
pub open spec fn positions(count: nat) -> Seq<usize> {
    Seq::new(count, |at: int| at as usize)
}

/// Whether `groups` are the runs of `names`: the positions of `names` in
/// order, cut where a name differs from the one before it. No group is
/// empty, the names at the positions of one group are the same, and the
/// names of two groups that follow each other differ.
pub open spec fn are_runs(groups: Seq<Seq<usize>>, names: Seq<Option<Seq<u8>>>) -> bool {
    &&& groups.flatten() == positions(names.len())
    &&& forall|g: int| 0 <= g < groups.len() ==> (#[trigger] groups[g]).len() > 0
    &&& forall|g: int, i: int|
        0 <= g < groups.len() && 0 <= i < groups[g].len() ==> names[(#[trigger] groups[g][i]) as int]
            == names[groups[g][0] as int]
    &&& forall|g: int|
        0 <= g < groups.len() - 1 ==> names[(#[trigger] groups[g + 1])[0] as int]
            != names[groups[g][0] as int]
}

/// `group_by` of `itertools`, over the positions of `names` and with the
/// name at a position as the key: neighbours with the same name are put
/// into one group, and the groups come in the order of the positions.
#[verifier::external_body]
pub(crate) fn group_by_name(names: &Vec<Option<Vec<u8>>>) -> (groups: Vec<Vec<usize>>)
    ensures
        are_runs(group_views(groups@), name_views(names@)),
{
    let grouped = (0..names.len()).group_by(|at| &names[*at]);
    grouped.into_iter().map(|(_name, group)| group.collect()).collect()
}

/// Every entry of a part is an entry of the flattened whole.
pub proof fn lemma_flatten_holds_entry(parts: Seq<Seq<usize>>, g: int, i: int)
    requires
        0 <= g < parts.len(),
        0 <= i < parts[g].len(),
    ensures
        parts.flatten().contains(parts[g][i]),
    decreases parts.len(),
{
    let rest = parts.drop_first();
    if g == 0 {
        assert(parts.flatten()[i] == parts[0][i]);
    } else {
        lemma_flatten_holds_entry(rest, g - 1, i);
        let k = choose|k: int| 0 <= k < rest.flatten().len() && rest.flatten()[k] == rest[g - 1][i];
        assert(parts.flatten()[parts[0].len() + k] == parts[g][i]);
    }
}

/// Every entry of the flattened whole is an entry of a part.
pub proof fn lemma_flatten_entry_has_part(parts: Seq<Seq<usize>>, k: int) -> (place: (int, int))
    requires
        0 <= k < parts.flatten().len(),
    ensures
        0 <= place.0 < parts.len(),
        0 <= place.1 < parts[place.0].len(),
        parts[place.0][place.1] == parts.flatten()[k],
    decreases parts.len(),
{
    if parts.len() == 0 {
        (0, 0)
    } else if k < parts[0].len() {
        (0, k)
    } else {
        let rest = parts.drop_first();
        let place = lemma_flatten_entry_has_part(rest, k - parts[0].len());
        (place.0 + 1, place.1)
    }
}

/// Whether one of `groups` holds the position `at`.
pub open spec fn is_grouped(groups: Seq<Seq<usize>>, at: int) -> bool {
    exists|g: int, i: int|
        0 <= g < groups.len() && 0 <= i < groups[g].len() && #[trigger] groups[g][i] == at
}

/// In the runs of `names` every entry of a group is a position of
/// `names`, and every position of `names` is in a group.
pub proof fn lemma_runs_cover(groups: Seq<Seq<usize>>, names: Seq<Option<Seq<u8>>>)
    requires
        are_runs(groups, names),
        names.len() <= usize::MAX,
    ensures
        forall|g: int, i: int|
            0 <= g < groups.len() && 0 <= i < groups[g].len() ==> (#[trigger] groups[g][i])
                < names.len(),
        forall|at: int| 0 <= at < names.len() ==> #[trigger] is_grouped(groups, at),
{
    let all = positions(names.len());
    assert forall|g: int, i: int| 0 <= g < groups.len() && 0 <= i < groups[g].len() implies (
    #[trigger] groups[g][i]) < names.len() by {
        lemma_flatten_holds_entry(groups, g, i);
        let k = choose|k: int| 0 <= k < all.len() && all[k] == groups[g][i];
        assert(all[k] == k);
    }
    assert forall|at: int| 0 <= at < names.len() implies #[trigger] is_grouped(groups, at) by {
        assert(all[at] == at);
        let place = lemma_flatten_entry_has_part(groups, at);
        assert(groups[place.0][place.1] == at);
    }
}

} // verus!
