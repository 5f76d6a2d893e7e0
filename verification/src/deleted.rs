//! Entries that snapshots hold and the live directory does not.

use vstd::prelude::*;
use crate::data::{EntryView, PathAndMaybeFileType};
use crate::index::{name_index_contents, name_index_get, name_index_insert, name_index_new};
use crate::path::{file_name, file_name_of};
use crate::runs::{are_runs, group_by_name, group_views, is_grouped, lemma_runs_cover, name_views};

verus! {

/// The file name of each of `entries`, where it has one.
fn file_names(entries: &Vec<PathAndMaybeFileType>) -> (names: Vec<Option<Vec<u8>>>)
    ensures
        names.len() == entries.len(),
        forall|at: int|
            0 <= at < names.len() ==> match #[trigger] names@[at] {
                Some(name) => file_name_of(entries@[at].path@) == Some(name@),
                None => file_name_of(entries@[at].path@) is None,
            },
{
    let mut names: Vec<Option<Vec<u8>>> = Vec::new();
    let mut at: usize = 0;
    while at < entries.len()
        invariant
            at <= entries.len(),
            names.len() == at,
            forall|seen: int|
                0 <= seen < at ==> match #[trigger] names@[seen] {
                    Some(name) => file_name_of(entries@[seen].path@) == Some(name@),
                    None => file_name_of(entries@[seen].path@) is None,
                },
        decreases entries.len() - at,
    {
        let ghost before = names@;
        names.push(file_name(&entries[at].path));
        assert(forall|seen: int| 0 <= seen < before.len() ==> names@[seen] == before[seen]);
        at = at + 1;
    }
    names
}

/// Whether one of `entries` has the file name `name`.
pub open spec fn has_name(entries: Seq<PathAndMaybeFileType>, name: Seq<u8>) -> bool {
    exists|at: int|
        0 <= at < entries.len() && file_name_of((#[trigger] entries[at]).path@) == Some(name)
}

/// Whether the snapshot entry at position `at` stands for a deleted file:
/// it has a file name, no live entry has that name, and no later snapshot
/// entry has it.
pub open spec fn is_deleted(
    local_entries: Seq<PathAndMaybeFileType>,
    snapshot_entries: Seq<PathAndMaybeFileType>,
    at: int,
) -> bool {
    &&& 0 <= at < snapshot_entries.len()
    &&& file_name_of(snapshot_entries[at].path@) is Some
    &&& !has_name(local_entries, file_name_of(snapshot_entries[at].path@)->0)
    &&& forall|later: int|
        at < later < snapshot_entries.len() ==> file_name_of(
            (#[trigger] snapshot_entries[later]).path@,
        ) != file_name_of(snapshot_entries[at].path@)
}

/// Whether `entry` is one of the snapshot entries that stand for a
/// deleted file.
pub open spec fn is_deleted_entry(
    entry: EntryView,
    local_entries: Seq<PathAndMaybeFileType>,
    snapshot_entries: Seq<PathAndMaybeFileType>,
) -> bool {
    exists|at: int| #[trigger]
        is_deleted(local_entries, snapshot_entries, at) && snapshot_entries[at]@ == entry
}

/// Whether `listed` holds `entry`.
pub open spec fn lists_entry(listed: Seq<PathAndMaybeFileType>, entry: EntryView) -> bool {
    exists|k: int| 0 <= k < listed.len() && (#[trigger] listed[k])@ == entry
}

/// Whether no two of `listed` have the same file name.
pub open spec fn names_differ(listed: Seq<PathAndMaybeFileType>) -> bool {
    forall|i: int, j: int|
        0 <= i < j < listed.len() ==> file_name_of((#[trigger] listed[i]).path@) != file_name_of(
            (#[trigger] listed[j]).path@,
        )
}

/// Whether `deleted` lists the files that the snapshots hold and the live
/// directory does not: one entry for each such file name and nothing else.
pub open spec fn lists_deleted(
    deleted: Seq<PathAndMaybeFileType>,
    local_entries: Seq<PathAndMaybeFileType>,
    snapshot_entries: Seq<PathAndMaybeFileType>,
) -> bool {
    &&& forall|k: int|
        0 <= k < deleted.len() ==> is_deleted_entry(
            (#[trigger] deleted[k])@,
            local_entries,
            snapshot_entries,
        )
    &&& forall|at: int| #[trigger]
        is_deleted(local_entries, snapshot_entries, at) ==> lists_entry(
            deleted,
            snapshot_entries[at]@,
        )
    &&& names_differ(deleted)
}

/// Compares the entries of a live directory with the entries that the
/// snapshots of one dataset hold for it, and returns those whose file name
/// the live directory lacks. Of the snapshot entries with one file name
/// the last stands for all; an entry without a file name stands for
/// nothing.
pub fn get_deleted_per_dataset(
    local_entries: &Vec<PathAndMaybeFileType>,
    snapshot_entries: &Vec<PathAndMaybeFileType>,
) -> (deleted: Vec<PathAndMaybeFileType>)
    ensures
        lists_deleted(deleted@, local_entries@, snapshot_entries@),
{
    let ghost local = local_entries@;
    let ghost snaps = snapshot_entries@;
    let local_names = file_names(local_entries);
    let mut unique_local_filenames = name_index_new();
    let mut at: usize = 0;
    while at < local_names.len()
        invariant
            at <= local_names.len(),
            local == local_entries@,
            local_names.len() == local.len(),
            forall|seen: int|
                0 <= seen < local_names.len() ==> match #[trigger] local_names@[seen] {
                    Some(name) => file_name_of(local[seen].path@) == Some(name@),
                    None => file_name_of(local[seen].path@) is None,
                },
            forall|name: Seq<u8>| #[trigger]
                name_index_contents(unique_local_filenames).contains_key(name) <==> exists|seen: int|
                    0 <= seen < at && file_name_of((#[trigger] local[seen]).path@) == Some(name),
        decreases local_names.len() - at,
    {
        let ghost earlier = name_index_contents(unique_local_filenames);
        match &local_names[at] {
            Some(name) => {
                name_index_insert(&mut unique_local_filenames, name, at);
            },
            None => {},
        }
        proof {
            assert forall|name: Seq<u8>| #[trigger]
                name_index_contents(unique_local_filenames).contains_key(name) <==> exists|seen: int|
                    0 <= seen < at + 1 && file_name_of((#[trigger] local[seen]).path@) == Some(
                        name,
                    ) by {
                if file_name_of(local[at as int].path@) == Some(name) {
                    assert(local_names@[at as int] is Some);
                } else if earlier.contains_key(name) {
                    let seen = choose|seen: int|
                        0 <= seen < at && file_name_of((#[trigger] local[seen]).path@) == Some(name);
                    assert(file_name_of(local[seen].path@) == Some(name));
                } else if exists|seen: int|
                    0 <= seen < at + 1 && file_name_of((#[trigger] local[seen]).path@) == Some(name) {
                    let seen = choose|seen: int|
                        0 <= seen < at + 1 && file_name_of((#[trigger] local[seen]).path@) == Some(
                            name,
                        );
                    assert(seen < at);
                }
            }
        }
        at = at + 1;
    }
    let snap_names = file_names(snapshot_entries);
    let mut unique_snap_filenames = name_index_new();
    let mut at: usize = 0;
    while at < snap_names.len()
        invariant
            at <= snap_names.len(),
            snaps == snapshot_entries@,
            snap_names.len() == snaps.len(),
            forall|seen: int|
                0 <= seen < snap_names.len() ==> match #[trigger] snap_names@[seen] {
                    Some(name) => file_name_of(snaps[seen].path@) == Some(name@),
                    None => file_name_of(snaps[seen].path@) is None,
                },
            forall|name: Seq<u8>| #[trigger]
                name_index_contents(unique_snap_filenames).contains_key(name) ==> is_last_named(
                    snaps,
                    at as int,
                    name,
                    name_index_contents(unique_snap_filenames)[name] as int,
                ),
            forall|seen: int|
                0 <= seen < at && file_name_of((#[trigger] snaps[seen]).path@) is Some
                    ==> name_index_contents(unique_snap_filenames).contains_key(
                    file_name_of(snaps[seen].path@)->0,
                ),
        decreases snap_names.len() - at,
    {
        match &snap_names[at] {
            Some(name) => {
                name_index_insert(&mut unique_snap_filenames, name, at);
            },
            None => {},
        }
        at = at + 1;
    }
    let mut deleted: Vec<PathAndMaybeFileType> = Vec::new();
    let mut at: usize = 0;
    while at < snap_names.len()
        invariant
            at <= snap_names.len(),
            local == local_entries@,
            snaps == snapshot_entries@,
            snap_names.len() == snaps.len(),
            forall|seen: int|
                0 <= seen < snap_names.len() ==> match #[trigger] snap_names@[seen] {
                    Some(name) => file_name_of(snaps[seen].path@) == Some(name@),
                    None => file_name_of(snaps[seen].path@) is None,
                },
            forall|name: Seq<u8>| #[trigger]
                name_index_contents(unique_local_filenames).contains_key(name) <==> has_name(
                    local,
                    name,
                ),
            forall|name: Seq<u8>| #[trigger]
                name_index_contents(unique_snap_filenames).contains_key(name) ==> is_last_named(
                    snaps,
                    snaps.len() as int,
                    name,
                    name_index_contents(unique_snap_filenames)[name] as int,
                ),
            forall|seen: int|
                0 <= seen < snaps.len() && file_name_of((#[trigger] snaps[seen]).path@) is Some
                    ==> name_index_contents(unique_snap_filenames).contains_key(
                    file_name_of(snaps[seen].path@)->0,
                ),
            forall|k: int|
                0 <= k < deleted.len() ==> is_deleted_before(
                    (#[trigger] deleted@[k])@,
                    local,
                    snaps,
                    at as int,
                ),
            forall|seen: int|
                0 <= seen < at && #[trigger] is_deleted(local, snaps, seen) ==> lists_entry(
                    deleted@,
                    snaps[seen]@,
                ),
            names_differ(deleted@),
        decreases snap_names.len() - at,
    {
        let ghost before = deleted@;
        let stands = match &snap_names[at] {
            Some(name) => {
                let last = match name_index_get(&unique_snap_filenames, name) {
                    Some(position) => position == at,
                    None => false,
                };
                last && name_index_get(&unique_local_filenames, name).is_none()
            },
            None => false,
        };
        assert(stands == is_deleted(local, snaps, at as int)) by {
            if file_name_of(snaps[at as int].path@) is Some {
                let name = file_name_of(snaps[at as int].path@)->0;
                assert(snap_names@[at as int] is Some);
                assert(name_index_contents(unique_snap_filenames).contains_key(name));
            }
        }
        if stands {
            deleted.push(snapshot_entries[at].duplicate());
            proof {
                assert(forall|k: int| 0 <= k < before.len() ==> deleted@[k] == before[k]);
                assert(deleted@[before.len() as int]@ == snaps[at as int]@);
                assert forall|k: int| 0 <= k < deleted.len() implies is_deleted_before(
                    (#[trigger] deleted@[k])@,
                    local,
                    snaps,
                    at + 1,
                ) by {
                    if k < before.len() {
                        assert(is_deleted_before(before[k]@, local, snaps, at as int));
                        let seen = choose|seen: int|
                            0 <= seen < at && #[trigger] is_deleted(local, snaps, seen)
                                && snaps[seen]@ == before[k]@;
                        assert(is_deleted(local, snaps, seen));
                    } else {
                        assert(is_deleted(local, snaps, at as int));
                    }
                }
                assert forall|i: int, j: int| 0 <= i < j < deleted.len() implies file_name_of(
                    (#[trigger] deleted@[i]).path@,
                ) != file_name_of((#[trigger] deleted@[j]).path@) by {
                    if j == before.len() {
                        assert(is_deleted_before(before[i]@, local, snaps, at as int));
                        let seen = choose|seen: int|
                            0 <= seen < at && #[trigger] is_deleted(local, snaps, seen)
                                && snaps[seen]@ == before[i]@;
                        assert(file_name_of(snaps[at as int].path@) != file_name_of(
                            snaps[seen].path@,
                        ));
                    }
                }
                assert forall|seen: int|
                    0 <= seen < at + 1 && #[trigger] is_deleted(
                        local,
                        snaps,
                        seen,
                    ) implies lists_entry(deleted@, snaps[seen]@) by {
                    if seen < at {
                        let k = choose|k: int|
                            0 <= k < before.len() && (#[trigger] before[k])@ == snaps[seen]@;
                        assert(deleted@[k]@ == snaps[seen]@);
                    }
                }
            }
        } else {
            proof {
                assert forall|k: int| 0 <= k < deleted.len() implies is_deleted_before(
                    (#[trigger] deleted@[k])@,
                    local,
                    snaps,
                    at + 1,
                ) by {
                    assert(is_deleted_before(deleted@[k]@, local, snaps, at as int));
                    let seen = choose|seen: int|
                        0 <= seen < at && #[trigger] is_deleted(local, snaps, seen) && snaps[seen]@
                            == deleted@[k]@;
                    assert(is_deleted(local, snaps, seen));
                }
            }
        }
        at = at + 1;
    }
    proof {
        assert forall|k: int| 0 <= k < deleted.len() implies is_deleted_entry(
            (#[trigger] deleted@[k])@,
            local,
            snaps,
        ) by {
            assert(is_deleted_before(deleted@[k]@, local, snaps, snaps.len() as int));
            let seen = choose|seen: int|
                0 <= seen < snaps.len() && #[trigger] is_deleted(local, snaps, seen) && snaps[seen]@
                    == deleted@[k]@;
            assert(is_deleted(local, snaps, seen));
        }
    }
    deleted
}

/// Whether `entry` is one of the first `upto` snapshot entries and stands
/// for a deleted file.
pub open spec fn is_deleted_before(
    entry: EntryView,
    local_entries: Seq<PathAndMaybeFileType>,
    snapshot_entries: Seq<PathAndMaybeFileType>,
    upto: int,
) -> bool {
    exists|at: int|
        0 <= at < upto && #[trigger] is_deleted(local_entries, snapshot_entries, at)
            && snapshot_entries[at]@ == entry
}

/// Whether, of the first `upto` of `entries`, the one at position `at` is
/// the last with the file name `name`.
pub open spec fn is_last_named(
    entries: Seq<PathAndMaybeFileType>,
    upto: int,
    name: Seq<u8>,
    at: int,
) -> bool {
    &&& 0 <= at < upto
    &&& file_name_of(entries[at].path@) == Some(name)
    &&& forall|later: int|
        at < later < upto ==> file_name_of((#[trigger] entries[later]).path@) != Some(name)
}

/// Whether the item at position `at` can stand for a deleted file: its
/// modification time was read and its path has a file name.
pub open spec fn is_dated(items: Seq<(Option<i128>, PathAndMaybeFileType)>, at: int) -> bool {
    &&& 0 <= at < items.len()
    &&& items[at].0 is Some
    &&& file_name_of(items[at].1.path@) is Some
}

/// Whether the items at the two positions have the same file name.
pub open spec fn same_name(
    items: Seq<(Option<i128>, PathAndMaybeFileType)>,
    first: int,
    second: int,
) -> bool {
    file_name_of(items[first].1.path@) == file_name_of(items[second].1.path@)
}

/// Whether the item at `first` is at least as fresh as the item at
/// `second`: it was modified later, or at the same time and does not come
/// before it.
pub open spec fn outranks(
    items: Seq<(Option<i128>, PathAndMaybeFileType)>,
    first: int,
    second: int,
) -> bool {
    ||| items[first].0->0 > items[second].0->0
    ||| items[first].0->0 == items[second].0->0 && first >= second
}

/// Whether the item at position `at` is the freshest of its file name: no
/// other item with that name was modified later, and of those modified at
/// the same time it is the last.
pub open spec fn is_freshest(items: Seq<(Option<i128>, PathAndMaybeFileType)>, at: int) -> bool {
    &&& is_dated(items, at)
    &&& forall|other: int| #[trigger]
        is_dated(items, other) && same_name(items, other, at) ==> outranks(items, at, other)
}

/// Whether `entry` is one of the first `upto` items and the freshest of
/// its file name among all.
pub open spec fn is_freshest_before(
    entry: EntryView,
    items: Seq<(Option<i128>, PathAndMaybeFileType)>,
    upto: int,
) -> bool {
    exists|at: int| 0 <= at < upto && #[trigger] is_freshest(items, at) && items[at].1@ == entry
}

/// Whether `unique` lists the deleted files of `items` once each: for each
/// file name the entry that was modified last, and nothing else.
pub open spec fn lists_unique_deleted(
    unique: Seq<PathAndMaybeFileType>,
    items: Seq<(Option<i128>, PathAndMaybeFileType)>,
) -> bool {
    &&& forall|k: int|
        0 <= k < unique.len() ==> is_freshest_before(
            (#[trigger] unique[k])@,
            items,
            items.len() as int,
        )
    &&& forall|at: int| #[trigger] is_freshest(items, at) ==> lists_entry(unique, items[at].1@)
    &&& names_differ(unique)
}

/// Whether `names` holds the file name of each item that can stand for a
/// deleted file, and nothing for any other item.
pub open spec fn are_dated_names(
    names: Seq<Option<Vec<u8>>>,
    items: Seq<(Option<i128>, PathAndMaybeFileType)>,
) -> bool {
    &&& names.len() == items.len()
    &&& forall|at: int|
        0 <= at < names.len() ==> match #[trigger] names[at] {
            Some(name) => is_dated(items, at) && file_name_of(items[at].1.path@) == Some(name@),
            None => !is_dated(items, at),
        }
}

/// The file name of each item that can stand for a deleted file.
fn dated_names(prep_deleted: &Vec<(Option<i128>, PathAndMaybeFileType)>) -> (names: Vec<
    Option<Vec<u8>>,
>)
    ensures
        are_dated_names(names@, prep_deleted@),
{
    let mut names: Vec<Option<Vec<u8>>> = Vec::new();
    let mut at: usize = 0;
    while at < prep_deleted.len()
        invariant
            at <= prep_deleted.len(),
            names.len() == at,
            forall|seen: int|
                0 <= seen < at ==> match #[trigger] names@[seen] {
                    Some(name) => is_dated(prep_deleted@, seen) && file_name_of(
                        prep_deleted@[seen].1.path@,
                    ) == Some(name@),
                    None => !is_dated(prep_deleted@, seen),
                },
        decreases prep_deleted.len() - at,
    {
        let ghost before = names@;
        let item = &prep_deleted[at];
        let name = if item.0.is_some() {
            file_name(&item.1.path)
        } else {
            None
        };
        names.push(name);
        assert(forall|seen: int| 0 <= seen < before.len() ==> names@[seen] == before[seen]);
        at = at + 1;
    }
    names
}

/// Whether the item at `first` is at least as fresh as the item at
/// `second`.
fn is_fresher(
    prep_deleted: &Vec<(Option<i128>, PathAndMaybeFileType)>,
    first: usize,
    second: usize,
) -> (yes: bool)
    requires
        is_dated(prep_deleted@, first as int),
        is_dated(prep_deleted@, second as int),
    ensures
        yes == outranks(prep_deleted@, first as int, second as int),
{
    match (prep_deleted[first].0, prep_deleted[second].0) {
        (Some(first_time), Some(second_time)) => first_time > second_time || (first_time
            == second_time && first >= second),
        _ => false,
    }
}

/// Whether one of `winners` has the file name of the item at `at` and is
/// at least as fresh.
pub open spec fn is_outranked(
    items: Seq<(Option<i128>, PathAndMaybeFileType)>,
    winners: Seq<usize>,
    at: int,
) -> bool {
    exists|k: int|
        0 <= k < winners.len() && same_name(items, (#[trigger] winners[k]) as int, at) && outranks(
            items,
            winners[k] as int,
            at,
        )
}

/// The freshest item of each run of neighbours with one file name.
fn freshest_of_runs(
    prep_deleted: &Vec<(Option<i128>, PathAndMaybeFileType)>,
    names: &Vec<Option<Vec<u8>>>,
) -> (winners: Vec<usize>)
    requires
        are_dated_names(names@, prep_deleted@),
    ensures
        forall|k: int| 0 <= k < winners.len() ==> is_dated(prep_deleted@, (#[trigger] winners@[k]) as int),
        forall|at: int| #[trigger] is_dated(prep_deleted@, at) ==> is_outranked(prep_deleted@, winners@, at),
{
    let ghost items = prep_deleted@;
    let groups = group_by_name(names);
    let ghost runs = group_views(groups@);
    let ghost keys = name_views(names@);
    proof {
        assert(keys.len() == names.len());
        lemma_runs_cover(runs, keys);
    }
    let mut winners: Vec<usize> = Vec::new();
    let mut g: usize = 0;
    while g < groups.len()
        invariant
            g <= groups.len(),
            runs.len() == groups.len(),
            items == prep_deleted@,
            runs == group_views(groups@),
            keys == name_views(names@),
            are_dated_names(names@, items),
            are_runs(runs, keys),
            forall|r: int, i: int|
                0 <= r < runs.len() && 0 <= i < runs[r].len() ==> (#[trigger] runs[r][i]) < keys.len(),
            forall|k: int| 0 <= k < winners.len() ==> is_dated(items, (#[trigger] winners@[k]) as int),
            forall|r: int, i: int|
                0 <= r < g && 0 <= i < runs[r].len() && is_dated(items, (#[trigger] runs[r][i]) as int)
                    ==> is_outranked(items, winners@, runs[r][i] as int),
        decreases groups.len() - g,
    {
        let group = &groups[g];
        assert(group@ == runs[g as int]);
        assert(runs[g as int].len() > 0);
        let first = group[0];
        assert(first == runs[g as int][0]);
        let ghost earlier = winners@;
        if names[first].is_some() {
            let mut best: usize = first;
            let mut i: usize = 1;
            assert(keys[first as int] == keys[runs[g as int][0] as int]);
            while i < group.len()
                invariant
                    1 <= i <= group.len(),
                    g < runs.len(),
                    items == prep_deleted@,
                    keys == name_views(names@),
                    group@ == runs[g as int],
                    first == runs[g as int][0],
                    are_dated_names(names@, items),
                    forall|j: int|
                        0 <= j < runs[g as int].len() ==> (#[trigger] runs[g as int][j]) < keys.len()
                            && keys[runs[g as int][j] as int] == keys[first as int],
                    names@[first as int] is Some,
                    best < keys.len(),
                    is_dated(items, best as int),
                    same_name(items, best as int, first as int),
                    forall|j: int|
                        0 <= j < i ==> outranks(items, best as int, (#[trigger] runs[g as int][j]) as int),
                decreases group.len() - i,
            {
                let at = group[i];
                proof {
                    lemma_same_key_same_name(names@, items, at as int, first as int);
                }
                if is_fresher(prep_deleted, at, best) {
                    best = at;
                }
                i = i + 1;
            }
            winners.push(best);
            proof {
                assert(forall|k: int| 0 <= k < earlier.len() ==> winners@[k] == earlier[k]);
                assert(winners@[earlier.len() as int] == best);
                assert forall|r: int, i: int|
                    0 <= r < g + 1 && 0 <= i < runs[r].len() && is_dated(
                        items,
                        (#[trigger] runs[r][i]) as int,
                    ) implies is_outranked(items, winners@, runs[r][i] as int) by {
                    if r < g {
                        lemma_still_outranked(items, earlier, winners@, runs[r][i] as int);
                    } else {
                        lemma_same_key_same_name(names@, items, runs[r][i] as int, first as int);
                        assert(same_name(items, winners@[earlier.len() as int] as int, runs[r][i] as int));
                    }
                }
            }
        } else {
            proof {
                assert forall|r: int, i: int|
                    0 <= r < g + 1 && 0 <= i < runs[r].len() && is_dated(
                        items,
                        (#[trigger] runs[r][i]) as int,
                    ) implies is_outranked(items, winners@, runs[r][i] as int) by {
                    if r == g {
                        assert(keys[runs[r][i] as int] == keys[first as int]);
                        assert(names@[runs[r][i] as int] is None);
                    }
                }
            }
        }
        g = g + 1;
    }
    proof {
        assert forall|at: int| #[trigger] is_dated(items, at) implies is_outranked(
            items,
            winners@,
            at,
        ) by {
            assert(is_grouped(runs, at));
            let (r, i) = choose|r: int, i: int|
                0 <= r < runs.len() && 0 <= i < runs[r].len() && #[trigger] runs[r][i] == at;
            assert(is_outranked(items, winners@, runs[r][i] as int));
        }
    }
    winners
}

/// Two items whose names were found to be the same have the same file
/// name, and both can stand for a deleted file where one can.
proof fn lemma_same_key_same_name(
    names: Seq<Option<Vec<u8>>>,
    items: Seq<(Option<i128>, PathAndMaybeFileType)>,
    first: int,
    second: int,
)
    requires
        are_dated_names(names, items),
        0 <= first < names.len(),
        0 <= second < names.len(),
        name_views(names)[first] == name_views(names)[second],
    ensures
        is_dated(items, first) == is_dated(items, second),
        is_dated(items, first) ==> same_name(items, first, second),
{
    assert(names[first] is Some == names[second] is Some);
}

/// What one of fewer winners outranks, one of more winners outranks.
proof fn lemma_still_outranked(
    items: Seq<(Option<i128>, PathAndMaybeFileType)>,
    fewer: Seq<usize>,
    more: Seq<usize>,
    at: int,
)
    requires
        is_outranked(items, fewer, at),
        fewer.len() <= more.len(),
        forall|k: int| 0 <= k < fewer.len() ==> more[k] == fewer[k],
    ensures
        is_outranked(items, more, at),
{
    let k = choose|k: int|
        0 <= k < fewer.len() && same_name(items, (#[trigger] fewer[k]) as int, at) && outranks(
            items,
            fewer[k] as int,
            at,
        );
    assert(same_name(items, more[k] as int, at) && outranks(items, more[k] as int, at));
}

/// Merges the deleted entries that several datasets report for one
/// directory. Each item is an entry with its modification time, where
/// that could be read. An item without a time or without a file name is
/// dropped; of the others the one that was modified last stands for its
/// file name.
pub fn get_unique_deleted(prep_deleted: &Vec<(Option<i128>, PathAndMaybeFileType)>) -> (unique:
    Vec<PathAndMaybeFileType>)
    ensures
        lists_unique_deleted(unique@, prep_deleted@),
{
    let ghost items = prep_deleted@;
    let names = dated_names(prep_deleted);
    let winners = freshest_of_runs(prep_deleted, &names);
    let mut freshest = name_index_new();
    let mut k: usize = 0;
    while k < winners.len()
        invariant
            k <= winners.len(),
            items == prep_deleted@,
            are_dated_names(names@, items),
            forall|n: int| 0 <= n < winners.len() ==> is_dated(items, (#[trigger] winners@[n]) as int),
            forall|name: Seq<u8>| #[trigger]
                name_index_contents(freshest).contains_key(name) ==> leads(
                    items,
                    winners@,
                    k as int,
                    name,
                    name_index_contents(freshest)[name] as int,
                ),
            forall|n: int|
                0 <= n < k ==> name_index_contents(freshest).contains_key(
                    file_name_of(items[(#[trigger] winners@[n]) as int].1.path@)->0,
                ),
        decreases winners.len() - k,
    {
        let ghost earlier = name_index_contents(freshest);
        let winner = winners[k];
        match &names[winner] {
            Some(name) => {
                let fresher = match name_index_get(&freshest, name) {
                    Some(best) => is_fresher(prep_deleted, winner, best),
                    None => true,
                };
                if fresher {
                    name_index_insert(&mut freshest, name, winner);
                }
                proof {
                    assert forall|other: Seq<u8>| #[trigger]
                        name_index_contents(freshest).contains_key(other) implies leads(
                        items,
                        winners@,
                        k + 1,
                        other,
                        name_index_contents(freshest)[other] as int,
                    ) by {
                        if other != name@ {
                            assert(earlier.contains_key(other));
                            assert(leads(items, winners@, k as int, other, earlier[other] as int));
                        } else if earlier.contains_key(other) {
                            assert(leads(items, winners@, k as int, other, earlier[other] as int));
                        }
                    }
                }
            },
            None => {},
        }
        k = k + 1;
    }
    proof {
        assert forall|name: Seq<u8>| #[trigger]
            name_index_contents(freshest).contains_key(name) implies is_freshest(
            items,
            name_index_contents(freshest)[name] as int,
        ) && file_name_of(items[name_index_contents(freshest)[name] as int].1.path@) == Some(
            name,
        ) by {
            let place = name_index_contents(freshest)[name] as int;
            assert(leads(items, winners@, winners.len() as int, name, place));
            assert forall|other: int| #[trigger]
                is_dated(items, other) && same_name(items, other, place) implies outranks(
                items,
                place,
                other,
            ) by {
                assert(is_outranked(items, winners@, other));
                let n = choose|n: int|
                    0 <= n < winners.len() && same_name(items, (#[trigger] winners@[n]) as int, other)
                        && outranks(items, winners@[n] as int, other);
                assert(outranks(items, place, winners@[n] as int));
            }
        }
        assert forall|seen: int|
            0 <= seen < items.len() && #[trigger] is_dated(items, seen) implies name_index_contents(
            freshest,
        ).contains_key(file_name_of(items[seen].1.path@)->0) by {
            assert(is_outranked(items, winners@, seen));
            let n = choose|n: int|
                0 <= n < winners.len() && same_name(items, (#[trigger] winners@[n]) as int, seen)
                    && outranks(items, winners@[n] as int, seen);
            assert(name_index_contents(freshest).contains_key(
                file_name_of(items[winners@[n] as int].1.path@)->0,
            ));
        }
    }
    let mut unique: Vec<PathAndMaybeFileType> = Vec::new();
    let mut at: usize = 0;
    while at < prep_deleted.len()
        invariant
            at <= prep_deleted.len(),
            items == prep_deleted@,
            are_dated_names(names@, items),
            forall|name: Seq<u8>| #[trigger]
                name_index_contents(freshest).contains_key(name) ==> is_freshest(
                    items,
                    name_index_contents(freshest)[name] as int,
                ) && file_name_of(items[name_index_contents(freshest)[name] as int].1.path@)
                    == Some(name),
            forall|seen: int|
                0 <= seen < items.len() && #[trigger] is_dated(items, seen)
                    ==> name_index_contents(freshest).contains_key(
                    file_name_of(items[seen].1.path@)->0,
                ),
            forall|k: int|
                0 <= k < unique.len() ==> is_freshest_before(
                    (#[trigger] unique@[k])@,
                    items,
                    at as int,
                ),
            forall|seen: int|
                0 <= seen < at && #[trigger] is_freshest(items, seen) ==> lists_entry(
                    unique@,
                    items[seen].1@,
                ),
            names_differ(unique@),
        decreases prep_deleted.len() - at,
    {
        let ghost before = unique@;
        let stands = match &names[at] {
            Some(name) => match name_index_get(&freshest, name) {
                Some(position) => position == at,
                None => false,
            },
            None => false,
        };
        assert(stands == is_freshest(items, at as int)) by {
            if is_dated(items, at as int) {
                let name = file_name_of(items[at as int].1.path@)->0;
                assert(names@[at as int] is Some);
                assert(name_index_contents(freshest).contains_key(name));
                let place = name_index_contents(freshest)[name] as int;
                assert(is_freshest(items, place));
                assert(is_dated(items, place));
                assert(same_name(items, place, at as int));
                assert(same_name(items, at as int, place));
            } else {
                assert(names@[at as int] is None);
            }
        }
        if stands {
            unique.push(prep_deleted[at].1.duplicate());
            proof {
                assert(forall|k: int| 0 <= k < before.len() ==> unique@[k] == before[k]);
                assert(unique@[before.len() as int]@ == items[at as int].1@);
                assert forall|k: int| 0 <= k < unique.len() implies is_freshest_before(
                    (#[trigger] unique@[k])@,
                    items,
                    at + 1,
                ) by {
                    if k < before.len() {
                        assert(is_freshest_before(before[k]@, items, at as int));
                        let seen = choose|seen: int|
                            0 <= seen < at && #[trigger] is_freshest(items, seen) && items[seen].1@
                                == before[k]@;
                        assert(is_freshest(items, seen));
                    } else {
                        assert(is_freshest(items, at as int));
                    }
                }
                assert forall|i: int, j: int| 0 <= i < j < unique.len() implies file_name_of(
                    (#[trigger] unique@[i]).path@,
                ) != file_name_of((#[trigger] unique@[j]).path@) by {
                    if j == before.len() {
                        assert(is_freshest_before(before[i]@, items, at as int));
                        let seen = choose|seen: int|
                            0 <= seen < at && #[trigger] is_freshest(items, seen) && items[seen].1@
                                == before[i]@;
                        assert(is_dated(items, seen));
                        assert(is_dated(items, at as int));
                        if same_name(items, seen, at as int) {
                            assert(same_name(items, at as int, seen));
                            assert(outranks(items, seen, at as int));
                            assert(outranks(items, at as int, seen));
                        }
                    }
                }
                assert forall|seen: int|
                    0 <= seen < at + 1 && #[trigger] is_freshest(items, seen) implies lists_entry(
                    unique@,
                    items[seen].1@,
                ) by {
                    if seen < at {
                        let k = choose|k: int|
                            0 <= k < before.len() && (#[trigger] before[k])@ == items[seen].1@;
                        assert(unique@[k]@ == items[seen].1@);
                    }
                }
            }
        } else {
            proof {
                assert forall|k: int| 0 <= k < unique.len() implies is_freshest_before(
                    (#[trigger] unique@[k])@,
                    items,
                    at + 1,
                ) by {
                    assert(is_freshest_before(unique@[k]@, items, at as int));
                    let seen = choose|seen: int|
                        0 <= seen < at && #[trigger] is_freshest(items, seen) && items[seen].1@
                            == unique@[k]@;
                    assert(is_freshest(items, seen));
                }
            }
        }
        at = at + 1;
    }
    unique
}

/// Whether, of the first `upto` of `winners`, the item at `place` has the
/// file name `name` and is at least as fresh as each of them with that
/// name.
pub open spec fn leads(
    items: Seq<(Option<i128>, PathAndMaybeFileType)>,
    winners: Seq<usize>,
    upto: int,
    name: Seq<u8>,
    place: int,
) -> bool {
    &&& is_dated(items, place)
    &&& file_name_of(items[place].1.path@) == Some(name)
    &&& forall|n: int|
        0 <= n < upto && same_name(items, (#[trigger] winners[n]) as int, place) ==> outranks(
            items,
            place,
            winners[n] as int,
        )
}

} // verus!
