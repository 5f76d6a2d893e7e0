//! From a path to the snapshot directories that may hold its versions.

use vstd::prelude::*;
use crate::bytes::{byte_views, bytes_equal, copy_bytes, ends_with};
use crate::data::{
    record_views, Config, FilesystemAndMount, HttmError, PathData, PathDataView, SnapPoint,
};
use crate::index::{
    name_index_contents, name_index_get, name_index_insert, name_index_new,
    version_index_contents, version_index_get, version_index_insert, version_index_new,
};
use crate::sorting::{
    lemma_no_duplicates_kept, lemma_same_entries, ordered_by_time, sort_by_rank, sort_by_time,
};
use crate::path::{
    components, has_prefix, join, joined, root_component, split_components,
    strip_prefix, stripped, SEPARATOR,
};

verus! {

/// The components of the directory that holds the path made of `parts`.
/// A path without components, and the root itself, are held by the root.
pub open spec fn parent_components(parts: Seq<Seq<u8>>) -> Seq<Seq<u8>> {
    if parts.len() == 0 || parts.last() == root_component() {
        seq![root_component()]
    } else {
        parts.drop_last()
    }
}

/// Whether the dataset mounted at `mount` contains the parent of `path`.
pub open spec fn contains_parent(path: Seq<u8>, mount: Seq<u8>) -> bool {
    components(mount).is_prefix_of(parent_components(components(path)))
}

/// Whether the mount at position `at` is the most immediate dataset of
/// `path`: it contains the parent of `path`, no mount that does so is
/// longer, and of those that are as long it comes first.
pub open spec fn is_immediate(path: Seq<u8>, mounts: Seq<FilesystemAndMount>, at: int) -> bool {
    &&& 0 <= at < mounts.len()
    &&& contains_parent(path, mounts[at].mount@)
    &&& forall|other: int|
        0 <= other < mounts.len() && #[trigger] contains_parent(path, mounts[other].mount@) ==> {
            ||| mounts[other].mount@.len() < mounts[at].mount@.len()
            ||| mounts[other].mount@.len() == mounts[at].mount@.len() && at <= other
        }
}

/// The components of the parent of the path that `parts` holds.
fn parent_of(parts: Vec<Vec<u8>>) -> (parent: Vec<Vec<u8>>)
    ensures
        byte_views(parent@) == parent_components(byte_views(parts@)),
{
    let mut parent = parts;
    let at_root = parent.len() == 0 || (parent[parent.len() - 1].len() == 1
        && parent[parent.len() - 1][0] == SEPARATOR);
    if at_root {
        proof {
            if parts.len() > 0 {
                assert(byte_views(parts@).last() =~= root_component());
            }
        }
        let mut root: Vec<u8> = Vec::new();
        root.push(SEPARATOR);
        let mut only: Vec<Vec<u8>> = Vec::new();
        only.push(root);
        assert(byte_views(only@) =~= seq![root_component()]);
        only
    } else {
        proof {
            let last = byte_views(parts@).last();
            if last.len() == 1 {
                assert(last[0] != root_component()[0]);
            }
        }
        parent.pop();
        assert(byte_views(parent@) =~= byte_views(parts@).drop_last());
        parent
    }
}

/// Finds the dataset that owns `pathdata`: the longest mount point that is
/// a prefix, component by component, of the parent of the path.
pub fn get_immediate_dataset(
    pathdata: &PathData,
    mount_collection: &Vec<FilesystemAndMount>,
) -> (found: Result<Vec<u8>, HttmError>)
    ensures
        match found {
            Ok(mount) => exists|at: int|
                #[trigger] is_immediate(pathdata.path_buf@, mount_collection@, at) && mount@
                    == mount_collection@[at].mount@,
            Err(error) => error == HttmError::NoQualifyingDataset && forall|at: int|
                0 <= at < mount_collection.len() ==> !#[trigger] contains_parent(
                    pathdata.path_buf@,
                    mount_collection@[at].mount@,
                ),
        },
{
    let parent_folder = parent_of(split_components(&pathdata.path_buf));
    let ghost path = pathdata.path_buf@;
    let ghost mounts = mount_collection@;
    let mut best: Option<usize> = None;
    let mut at: usize = 0;
    while at < mount_collection.len()
        invariant
            at <= mount_collection.len(),
            path == pathdata.path_buf@,
            mounts == mount_collection@,
            byte_views(parent_folder@) == parent_components(components(path)),
            match best {
                Some(chosen) => chosen < at && is_immediate(path, mounts.take(at as int), chosen as int),
                None => forall|seen: int|
                    0 <= seen < at ==> !#[trigger] contains_parent(path, mounts[seen].mount@),
            },
        decreases mount_collection.len() - at,
    {
        let mount = &mount_collection[at].mount;
        let qualifies = has_prefix(&parent_folder, &split_components(mount));
        assert(qualifies == contains_parent(path, mounts[at as int].mount@));
        let ghost earlier = mounts.take(at as int);
        let ghost later = mounts.take(at as int + 1);
        assert(forall|k: int| 0 <= k < at ==> later[k] == earlier[k]);
        assert(later[at as int] == mounts[at as int]);
        if qualifies {
            match best {
                Some(chosen) => {
                    if mount.len() > mount_collection[chosen].mount.len() {
                        best = Some(at);
                        assert(is_immediate(path, later, at as int));
                    } else {
                        assert(is_immediate(path, later, chosen as int));
                    }
                },
                None => {
                    best = Some(at);
                    assert(is_immediate(path, later, at as int));
                },
            }
        } else {
            match best {
                Some(chosen) => {
                    assert(is_immediate(path, later, chosen as int));
                },
                None => {},
            }
        }
        at = at + 1;
    }
    assert(mounts.take(mount_collection.len() as int) =~= mounts);
    match best {
        Some(chosen) => Ok(copy_bytes(&mount_collection[chosen].mount)),
        None => Err(HttmError::NoQualifyingDataset),
    }
}

/// Whether the line at position `at` is the first of the inventory that is
/// mounted at `mount`. Where a mount point occurs twice, the first line
/// speaks for it.
pub open spec fn first_mounted_at(mounts: Seq<FilesystemAndMount>, mount: Seq<u8>, at: int) -> bool {
    &&& 0 <= at < mounts.len()
    &&& mounts[at].mount@ == mount
    &&& forall|before: int| 0 <= before < at ==> mounts[before].mount@ != mount
}

/// Whether the filesystem named `candidate` replicates the one named
/// `immediate`: its name ends with that name and is not that name.
pub open spec fn replicates(candidate: Seq<u8>, immediate: Seq<u8>) -> bool {
    candidate != immediate && immediate.is_suffix_of(candidate)
}

/// Whether the line at position `at` speaks for its mount point and names
/// a filesystem that replicates the one of the line at `immediate_at`.
pub open spec fn is_alt_replicated(
    mounts: Seq<FilesystemAndMount>,
    immediate_at: int,
    at: int,
) -> bool {
    &&& 0 <= at < mounts.len()
    &&& first_mounted_at(mounts, mounts[at].mount@, at)
    &&& replicates(mounts[at].filesystem@, mounts[immediate_at].filesystem@)
}

/// Whether `mount` is the mount point of a filesystem that replicates the
/// one of the line at `immediate_at`.
pub open spec fn is_alt_replicated_mount(
    mount: Seq<u8>,
    mounts: Seq<FilesystemAndMount>,
    immediate_at: int,
) -> bool {
    exists|at: int| #[trigger]
        is_alt_replicated(mounts, immediate_at, at) && mounts[at].mount@ == mount
}

/// Whether `alts` lists the mount points of the filesystems that replicate
/// the one of the line at `immediate_at`: each of them once and nothing
/// else, the shorter mount points first.
pub open spec fn lists_alt_replicated(
    alts: Seq<Seq<u8>>,
    mounts: Seq<FilesystemAndMount>,
    immediate_at: int,
) -> bool {
    &&& forall|k: int|
        0 <= k < alts.len() ==> is_alt_replicated_mount(#[trigger] alts[k], mounts, immediate_at)
    &&& forall|at: int| #[trigger]
        is_alt_replicated(mounts, immediate_at, at) ==> alts.contains(mounts[at].mount@)
    &&& alts.no_duplicates()
    &&& forall|i: int, j: int|
        0 <= i <= j < alts.len() ==> (#[trigger] alts[i]).len() <= (#[trigger] alts[j]).len()
}

/// The first parts of `pairs`, as byte strings.
pub open spec fn first_parts(pairs: Seq<(Vec<u8>, Vec<u8>)>) -> Seq<Seq<u8>> {
    pairs.map_values(|pair: (Vec<u8>, Vec<u8>)| pair.0@)
}

/// Whether each of `pairs` has `reference` as its second part.
pub open spec fn pairs_with(pairs: Seq<(Vec<u8>, Vec<u8>)>, reference: Seq<u8>) -> bool {
    forall|k: int| 0 <= k < pairs.len() ==> (#[trigger] pairs[k]).1@ == reference
}

/// Finds the mount points of the filesystems that replicate the one
/// mounted at `immediate_dataset_mount`.
pub fn get_alt_replicated_dataset(
    immediate_dataset_mount: &Vec<u8>,
    mount_collection: &Vec<FilesystemAndMount>,
) -> (found: Result<Vec<(Vec<u8>, Vec<u8>)>, HttmError>)
    ensures
        match found {
            Ok(pairs) => pairs.len() > 0 && pairs_with(pairs@, immediate_dataset_mount@)
                && exists|immediate_at: int|
                #[trigger] first_mounted_at(
                    mount_collection@,
                    immediate_dataset_mount@,
                    immediate_at,
                ) && lists_alt_replicated(first_parts(pairs@), mount_collection@, immediate_at),
            Err(error) => {
                ||| error == HttmError::NoImmediateDataset && forall|at: int|
                    0 <= at < mount_collection.len() ==> (#[trigger] mount_collection@[at]).mount@
                        != immediate_dataset_mount@
                ||| error == HttmError::NoAltReplicatedMount && exists|immediate_at: int|
                    #[trigger] first_mounted_at(
                        mount_collection@,
                        immediate_dataset_mount@,
                        immediate_at,
                    ) && forall|at: int|
                        !#[trigger] is_alt_replicated(mount_collection@, immediate_at, at)
            },
        },
{
    let ghost mounts = mount_collection@;
    let mut unique_mounts = name_index_new();
    let mut at: usize = 0;
    while at < mount_collection.len()
        invariant
            at <= mount_collection.len(),
            mounts == mount_collection@,
            forall|name: Seq<u8>| #[trigger]
                name_index_contents(unique_mounts).contains_key(name) ==> first_mounted_at(
                    mounts,
                    name,
                    name_index_contents(unique_mounts)[name] as int,
                ) && name_index_contents(unique_mounts)[name] < at,
            forall|seen: int|
                0 <= seen < at ==> name_index_contents(unique_mounts).contains_key(
                    (#[trigger] mounts[seen]).mount@,
                ),
        decreases mount_collection.len() - at,
    {
        let mount = &mount_collection[at].mount;
        if name_index_get(&unique_mounts, mount).is_none() {
            name_index_insert(&mut unique_mounts, mount, at);
            assert(first_mounted_at(mounts, mount@, at as int));
        }
        at = at + 1;
    }
    let immediate_at = match name_index_get(&unique_mounts, immediate_dataset_mount) {
        Some(position) => position,
        None => {
            return Err(HttmError::NoImmediateDataset);
        },
    };
    assert(first_mounted_at(mounts, immediate_dataset_mount@, immediate_at as int));
    let immediate_filesystem = &mount_collection[immediate_at].filesystem;
    let mut ranked: Vec<(usize, usize)> = Vec::new();
    let mut at: usize = 0;
    while at < mount_collection.len()
        invariant
            at <= mount_collection.len(),
            mounts == mount_collection@,
            immediate_at < mounts.len(),
            immediate_filesystem@ == mounts[immediate_at as int].filesystem@,
            forall|name: Seq<u8>| #[trigger]
                name_index_contents(unique_mounts).contains_key(name) ==> first_mounted_at(
                    mounts,
                    name,
                    name_index_contents(unique_mounts)[name] as int,
                ),
            forall|seen: int|
                0 <= seen < mounts.len() ==> name_index_contents(unique_mounts).contains_key(
                    (#[trigger] mounts[seen]).mount@,
                ),
            forall|k: int|
                0 <= k < ranked.len() ==> (#[trigger] ranked@[k]).1 < at && is_alt_replicated(
                    mounts,
                    immediate_at as int,
                    ranked@[k].1 as int,
                ) && ranked@[k].0 == mounts[ranked@[k].1 as int].mount@.len(),
            forall|i: int, j: int|
                0 <= i < j < ranked.len() ==> (#[trigger] ranked@[i]).1 < (#[trigger] ranked@[j]).1,
            forall|seen: int|
                0 <= seen < at && #[trigger] is_alt_replicated(mounts, immediate_at as int, seen)
                    ==> exists|k: int| 0 <= k < ranked.len() && (#[trigger] ranked@[k]).1 == seen,
        decreases mount_collection.len() - at,
    {
        let line = &mount_collection[at];
        let speaks = match name_index_get(&unique_mounts, &line.mount) {
            Some(position) => position == at,
            None => false,
        };
        assert(speaks == first_mounted_at(mounts, mounts[at as int].mount@, at as int));
        let ghost before = ranked@;
        if speaks && !bytes_equal(&line.filesystem, immediate_filesystem) && ends_with(
            &line.filesystem,
            immediate_filesystem,
        ) {
            assert(is_alt_replicated(mounts, immediate_at as int, at as int));
            ranked.push((line.mount.len(), at));
            assert(forall|k: int| 0 <= k < before.len() ==> ranked@[k] == before[k]);
            assert(ranked@[before.len() as int].1 == at);
            assert forall|seen: int|
                0 <= seen < at + 1 && #[trigger] is_alt_replicated(
                    mounts,
                    immediate_at as int,
                    seen,
                ) implies exists|k: int| 0 <= k < ranked.len() && (#[trigger] ranked@[k]).1 == seen by {
                if seen < at {
                    let k = choose|k: int| 0 <= k < before.len() && (#[trigger] before[k]).1 == seen;
                    assert(ranked@[k].1 == seen);
                } else {
                    assert(ranked@[before.len() as int].1 == seen);
                }
            }
        } else {
            assert(!is_alt_replicated(mounts, immediate_at as int, at as int));
        }
        at = at + 1;
    }
    if ranked.len() == 0 {
        assert forall|at: int| !#[trigger] is_alt_replicated(mounts, immediate_at as int, at) by {
            if is_alt_replicated(mounts, immediate_at as int, at) {
                let k = choose|k: int| 0 <= k < ranked.len() && (#[trigger] ranked@[k]).1 == at;
            }
        }
        return Err(HttmError::NoAltReplicatedMount);
    }
    let ghost chosen = ranked@;
    sort_by_rank(&mut ranked);
    proof {
        lemma_same_entries(chosen, ranked@);
        assert(chosen.no_duplicates()) by {
            assert forall|i: int, j: int|
                0 <= i < chosen.len() && 0 <= j < chosen.len() && i != j implies chosen[i]
                != chosen[j] by {
                if i < j {
                    assert(chosen[i].1 < chosen[j].1);
                } else {
                    assert(chosen[j].1 < chosen[i].1);
                }
            }
        }
        lemma_no_duplicates_kept(chosen, ranked@);
        assert forall|n: int| 0 <= n < ranked.len() implies (#[trigger] ranked@[n]).1 < mounts.len()
            && is_alt_replicated(mounts, immediate_at as int, ranked@[n].1 as int) && ranked@[n].0
            == mounts[ranked@[n].1 as int].mount@.len() by {
            assert(ranked@.contains(ranked@[n]));
            assert(chosen.contains(ranked@[n]));
            let c = choose|c: int| 0 <= c < chosen.len() && chosen[c] == ranked@[n];
            assert(is_alt_replicated(mounts, immediate_at as int, chosen[c].1 as int));
        }
    }
    let mut pairs: Vec<(Vec<u8>, Vec<u8>)> = Vec::new();
    let mut k: usize = 0;
    while k < ranked.len()
        invariant
            k <= ranked.len(),
            mounts == mount_collection@,
            pairs.len() == k,
            immediate_at < mounts.len(),
            mounts[immediate_at as int].mount@ == immediate_dataset_mount@,
            forall|n: int|
                0 <= n < ranked.len() ==> (#[trigger] ranked@[n]).1 < mounts.len(),
            forall|n: int|
                0 <= n < k ==> (#[trigger] pairs@[n]).0@ == mounts[ranked@[n].1 as int].mount@
                    && pairs@[n].1@ == immediate_dataset_mount@,
        decreases ranked.len() - k,
    {
        let position = ranked[k].1;
        let ghost before = pairs@;
        pairs.push(
            (copy_bytes(&mount_collection[position].mount), copy_bytes(immediate_dataset_mount)),
        );
        assert(forall|n: int| 0 <= n < before.len() ==> pairs@[n] == before[n]);
        k = k + 1;
    }
    proof {
        let sorted = ranked@;
        let alts = first_parts(pairs@);
        assert forall|n: int| 0 <= n < alts.len() implies is_alt_replicated_mount(
            #[trigger] alts[n],
            mounts,
            immediate_at as int,
        ) by {
            assert(is_alt_replicated(mounts, immediate_at as int, sorted[n].1 as int));
        }
        assert forall|at: int| #[trigger]
            is_alt_replicated(mounts, immediate_at as int, at) implies alts.contains(
            mounts[at].mount@,
        ) by {
            let c = choose|c: int| 0 <= c < chosen.len() && (#[trigger] chosen[c]).1 == at;
            assert(chosen.contains(chosen[c]));
            assert(sorted.contains(chosen[c]));
            let n = choose|n: int| 0 <= n < sorted.len() && sorted[n] == chosen[c];
            assert(alts[n] == mounts[at].mount@);
        }
        assert forall|i: int, j: int| 0 <= i < alts.len() && 0 <= j < alts.len() && i != j implies alts[i]
            != alts[j] by {
            if alts[i] == alts[j] {
                assert(is_alt_replicated(mounts, immediate_at as int, sorted[i].1 as int));
                assert(is_alt_replicated(mounts, immediate_at as int, sorted[j].1 as int));
                assert(sorted[i].1 == sorted[j].1);
                assert(sorted[i] == sorted[j]);
            }
        }
        assert forall|i: int, j: int| 0 <= i <= j < alts.len() implies (#[trigger] alts[i]).len() <= (
        #[trigger] alts[j]).len() by {
            assert(sorted[i].0 <= sorted[j].0);
        }
        assert(lists_alt_replicated(alts, mounts, immediate_at as int));
    }
    Ok(pairs)
}

/// Which datasets a search looks at: the one that owns the path, or
/// those that replicate it.
#[derive(Clone, Copy, Debug, PartialEq, Eq, Structural)]
pub enum NativeDatasetType {
    MostImmediate,
    AltReplicated,
}

/// One place to search: the directory that holds one directory for each
/// snapshot of a dataset, and the path to look for inside each of them.
#[derive(Clone, Debug, PartialEq, Eq)]
pub struct SearchDirs {
    pub hidden_snapshot_dir: Vec<u8>,
    pub relative_path: Vec<u8>,
}

/// The path, below a dataset, of the directory that holds its snapshots:
/// `.zfs/snapshot`.
pub open spec fn snapshot_dir_name() -> Seq<u8> {
    seq![46u8, 122u8, 102u8, 115u8, 47u8, 115u8, 110u8, 97u8, 112u8, 115u8, 104u8, 111u8, 116u8]
}

/// Whether `plan` searches for `path` in the snapshots of the dataset
/// mounted at `dataset`, where the live files that the dataset holds are
/// below `reference`.
pub open spec fn searches(
    plan: SearchDirs,
    path: Seq<u8>,
    dataset: Seq<u8>,
    reference: Seq<u8>,
) -> bool {
    &&& plan.hidden_snapshot_dir@ == joined(dataset, snapshot_dir_name())
    &&& stripped(path, reference) == Some(plan.relative_path@)
}

/// Whether `plans` has one plan for each of `datasets` and in their order,
/// each for `path` with the live files below `reference`.
pub open spec fn searches_each(
    plans: Seq<SearchDirs>,
    path: Seq<u8>,
    datasets: Seq<Seq<u8>>,
    reference: Seq<u8>,
) -> bool {
    &&& plans.len() == datasets.len()
    &&& forall|k: int|
        0 <= k < plans.len() ==> searches(#[trigger] plans[k], path, datasets[k], reference)
}

/// What a search owes where the operator has named the directories.
pub open spec fn user_defined_outcome(
    found: Result<Seq<SearchDirs>, HttmError>,
    path: Seq<u8>,
    snap_dir: Seq<u8>,
    local_dir: Seq<u8>,
) -> bool {
    match found {
        Ok(plans) => searches_each(plans, path, seq![snap_dir], local_dir),
        Err(error) => error == HttmError::WrongWorkingDirectory && stripped(path, local_dir)
            is None,
    }
}

/// What a search owes for the dataset that owns the path.
pub open spec fn most_immediate_outcome(
    found: Result<Seq<SearchDirs>, HttmError>,
    path: Seq<u8>,
    mounts: Seq<FilesystemAndMount>,
) -> bool {
    match found {
        Ok(plans) => exists|at: int| #[trigger]
            is_immediate(path, mounts, at) && searches_each(
                plans,
                path,
                seq![mounts[at].mount@],
                mounts[at].mount@,
            ),
        Err(error) => {
            ||| error == HttmError::NoQualifyingDataset && forall|at: int|
                0 <= at < mounts.len() ==> !#[trigger] contains_parent(path, mounts[at].mount@)
            ||| error == HttmError::WrongWorkingDirectory && exists|at: int| #[trigger]
                is_immediate(path, mounts, at) && stripped(path, mounts[at].mount@) is None
        },
    }
}

/// What a search owes for the datasets that replicate the one that owns
/// the path.
pub open spec fn alt_replicated_outcome(
    found: Result<Seq<SearchDirs>, HttmError>,
    path: Seq<u8>,
    mounts: Seq<FilesystemAndMount>,
) -> bool {
    match found {
        Ok(plans) => plans.len() > 0 && exists|at: int, immediate_at: int, alts: Seq<Seq<u8>>|
            #![trigger is_immediate(path, mounts, at), lists_alt_replicated(alts, mounts, immediate_at)]
            is_immediate(path, mounts, at) && first_mounted_at(
                mounts,
                mounts[at].mount@,
                immediate_at,
            ) && lists_alt_replicated(alts, mounts, immediate_at) && searches_each(
                plans,
                path,
                alts,
                mounts[at].mount@,
            ),
        Err(error) => {
            ||| error == HttmError::NoQualifyingDataset && forall|at: int|
                0 <= at < mounts.len() ==> !#[trigger] contains_parent(path, mounts[at].mount@)
            ||| error == HttmError::NoAltReplicatedMount && exists|at: int, immediate_at: int|
                #![trigger is_immediate(path, mounts, at), first_mounted_at(mounts, mounts[at].mount@, immediate_at)]
                is_immediate(path, mounts, at) && first_mounted_at(
                    mounts,
                    mounts[at].mount@,
                    immediate_at,
                ) && forall|other: int| !#[trigger] is_alt_replicated(mounts, immediate_at, other)
            ||| error == HttmError::WrongWorkingDirectory && exists|at: int, immediate_at: int|
                #![trigger is_immediate(path, mounts, at), first_mounted_at(mounts, mounts[at].mount@, immediate_at)]
                is_immediate(path, mounts, at) && first_mounted_at(
                    mounts,
                    mounts[at].mount@,
                    immediate_at,
                ) && (exists|other: int| #[trigger] is_alt_replicated(mounts, immediate_at, other))
                    && stripped(path, mounts[at].mount@) is None
        },
    }
}

/// What `get_search_dirs` owes for `path` and one kind of dataset.
pub open spec fn search_outcome(
    found: Result<Seq<SearchDirs>, HttmError>,
    snap_point: SnapPoint,
    path: Seq<u8>,
    kind: NativeDatasetType,
) -> bool {
    match snap_point {
        SnapPoint::UserDefined(defined_dirs) => user_defined_outcome(
            found,
            path,
            defined_dirs.snap_dir@,
            defined_dirs.local_dir@,
        ),
        SnapPoint::Native(mount_collection) => match kind {
            NativeDatasetType::MostImmediate => most_immediate_outcome(
                found,
                path,
                mount_collection@,
            ),
            NativeDatasetType::AltReplicated => alt_replicated_outcome(
                found,
                path,
                mount_collection@,
            ),
        },
    }
}

/// A result with the plans as a sequence.
pub open spec fn plans_view(found: Result<Vec<SearchDirs>, HttmError>) -> Result<
    Seq<SearchDirs>,
    HttmError,
> {
    match found {
        Ok(plans) => Ok(plans@),
        Err(error) => Err(error),
    }
}

/// The name of the directory, below a dataset, that holds its snapshots.
pub fn hidden_snapshot_dir_name() -> (name: Vec<u8>)
    ensures
        name@ == snapshot_dir_name(),
{
    let name: Vec<u8> = vec![
        46u8, 122u8, 102u8, 115u8, 47u8, 115u8, 110u8, 97u8, 112u8, 115u8, 104u8, 111u8, 116u8,
    ];
    assert(name@ =~= snapshot_dir_name());
    name
}

/// One plan for each of `datasets`, each for `path` with the live files
/// below `reference`.
fn plan_each(path: &Vec<u8>, datasets: &Vec<(Vec<u8>, Vec<u8>)>, reference: &Vec<u8>) -> (found:
    Result<Vec<SearchDirs>, HttmError>)
    ensures
        match found {
            Ok(plans) => searches_each(plans@, path@, first_parts(datasets@), reference@),
            Err(error) => error == HttmError::WrongWorkingDirectory && datasets.len() > 0
                && stripped(path@, reference@) is None,
        },
{
    let name = hidden_snapshot_dir_name();
    let mut plans: Vec<SearchDirs> = Vec::new();
    let mut k: usize = 0;
    while k < datasets.len()
        invariant
            k <= datasets.len(),
            name@ == snapshot_dir_name(),
            plans.len() == k,
            forall|n: int|
                0 <= n < k ==> searches(
                    #[trigger] plans@[n],
                    path@,
                    first_parts(datasets@)[n],
                    reference@,
                ),
        decreases datasets.len() - k,
    {
        let hidden_snapshot_dir = join(&datasets[k].0, &name);
        let relative_path = match strip_prefix(path, reference) {
            Some(rest) => rest,
            None => {
                return Err(HttmError::WrongWorkingDirectory);
            },
        };
        let ghost before = plans@;
        plans.push(SearchDirs { hidden_snapshot_dir, relative_path });
        assert(forall|n: int| 0 <= n < before.len() ==> plans@[n] == before[n]);
        k = k + 1;
    }
    Ok(plans)
}

/// Plans the search for the versions of `file_pathdata`: in which snapshot
/// directories to look, and for which path inside each snapshot.
pub fn get_search_dirs(
    config: &Config,
    file_pathdata: &PathData,
    requested_dataset_type: &NativeDatasetType,
) -> (found: Result<Vec<SearchDirs>, HttmError>)
    ensures
        search_outcome(
            plans_view(found),
            config.snap_point,
            file_pathdata.path_buf@,
            *requested_dataset_type,
        ),
{
    let path = &file_pathdata.path_buf;
    match &config.snap_point {
        SnapPoint::UserDefined(defined_dirs) => {
            let mut datasets: Vec<(Vec<u8>, Vec<u8>)> = Vec::new();
            datasets.push((copy_bytes(&defined_dirs.snap_dir), copy_bytes(&defined_dirs.snap_dir)));
            assert(first_parts(datasets@) =~= seq![defined_dirs.snap_dir@]);
            plan_each(path, &datasets, &defined_dirs.local_dir)
        },
        SnapPoint::Native(mount_collection) => {
            let immediate_dataset_mount = match get_immediate_dataset(
                file_pathdata,
                mount_collection,
            ) {
                Ok(mount) => mount,
                Err(error) => {
                    return Err(error);
                },
            };
            let ghost mounts = mount_collection@;
            let ghost at = choose|at: int| #[trigger]
                is_immediate(path@, mounts, at) && immediate_dataset_mount@ == mounts[at].mount@;
            match requested_dataset_type {
                NativeDatasetType::MostImmediate => {
                    let mut datasets: Vec<(Vec<u8>, Vec<u8>)> = Vec::new();
                    datasets.push(
                        (
                            copy_bytes(&immediate_dataset_mount),
                            copy_bytes(&immediate_dataset_mount),
                        ),
                    );
                    assert(first_parts(datasets@) =~= seq![mounts[at].mount@]);
                    plan_each(path, &datasets, &immediate_dataset_mount)
                },
                NativeDatasetType::AltReplicated => {
                    let datasets = match get_alt_replicated_dataset(
                        &immediate_dataset_mount,
                        mount_collection,
                    ) {
                        Ok(pairs) => pairs,
                        Err(error) => {
                            assert(first_mounted_at(mounts, mounts[at].mount@, at) || exists|before: int|
                                0 <= before < at && mounts[before].mount@ == mounts[at].mount@);
                            assert(error == HttmError::NoAltReplicatedMount);
                            return Err(error);
                        },
                    };
                    let ghost immediate_at = choose|immediate_at: int| #[trigger]
                        first_mounted_at(mounts, immediate_dataset_mount@, immediate_at)
                            && lists_alt_replicated(first_parts(datasets@), mounts, immediate_at);
                    let found = plan_each(path, &datasets, &immediate_dataset_mount);
                    proof {
                        let alts = first_parts(datasets@);
                        assert(is_alt_replicated_mount(alts[0], mounts, immediate_at));
                    }
                    found
                },
            }
        },
    }
}

/// The paths at which the snapshots may hold the file that `search_dirs`
/// looks for: the relative path, appended to each entry of the snapshot
/// directory.
pub fn candidate_paths(search_dirs: &SearchDirs, snapshot_entries: &Vec<Vec<u8>>) -> (candidates:
    Vec<Vec<u8>>)
    ensures
        candidates.len() == snapshot_entries.len(),
        forall|k: int|
            0 <= k < candidates.len() ==> (#[trigger] candidates@[k])@ == joined(
                snapshot_entries@[k]@,
                search_dirs.relative_path@,
            ),
{
    let mut candidates: Vec<Vec<u8>> = Vec::new();
    let mut k: usize = 0;
    while k < snapshot_entries.len()
        invariant
            k <= snapshot_entries.len(),
            candidates.len() == k,
            forall|n: int|
                0 <= n < k ==> (#[trigger] candidates@[n])@ == joined(
                    snapshot_entries@[n]@,
                    search_dirs.relative_path@,
                ),
        decreases snapshot_entries.len() - k,
    {
        let ghost before = candidates@;
        candidates.push(join(&snapshot_entries[k], &search_dirs.relative_path));
        assert(forall|n: int| 0 <= n < before.len() ==> candidates@[n] == before[n]);
        k = k + 1;
    }
    candidates
}

/// What tells one version of a file from another: its modification time
/// and its size.
pub open spec fn version_key(record: PathData) -> (i128, u64) {
    (record.system_time, record.size)
}

/// Whether the candidate at position `at` is a version of its own: it is
/// no phantom, and no later candidate that is no phantom has its
/// modification time and size.
pub open spec fn is_version(candidates: Seq<PathData>, at: int) -> bool {
    &&& 0 <= at < candidates.len()
    &&& !candidates[at].is_phantom
    &&& forall|later: int|
        at < later < candidates.len() && !(#[trigger] candidates[later]).is_phantom
            ==> version_key(candidates[later]) != version_key(candidates[at])
}

/// Whether `record` is one of the candidates that are versions of their
/// own.
pub open spec fn is_version_record(record: PathData, candidates: Seq<PathData>) -> bool {
    exists|at: int| #[trigger] is_version(candidates, at) && candidates[at] == record
}

/// Whether `versions` lists the distinct versions among `candidates`: each
/// of them once and nothing else, no two with the same modification time
/// and size, the oldest first.
pub open spec fn lists_versions(versions: Seq<PathData>, candidates: Seq<PathData>) -> bool {
    &&& forall|k: int|
        0 <= k < versions.len() ==> is_version_record(#[trigger] versions[k], candidates)
    &&& forall|at: int| #[trigger]
        is_version(candidates, at) ==> versions.contains(candidates[at])
    &&& forall|i: int, j: int|
        0 <= i < j < versions.len() ==> version_key(#[trigger] versions[i]) != version_key(
            #[trigger] versions[j],
        )
    &&& ordered_by_time(versions)
}

/// Picks the distinct versions among `candidates`, the records of one
/// path in each snapshot: phantoms are dropped, of the records with one
/// modification time and size the last is kept, and the result is sorted
/// by modification time.
pub fn get_versions(candidates: Vec<PathData>) -> (versions: Vec<PathData>)
    ensures
        lists_versions(versions@, candidates@),
{
    let ghost all = candidates@;
    let mut rest = candidates;
    let mut unique_versions = version_index_new();
    let mut kept: Vec<PathData> = Vec::new();
    let ghost mut places: Seq<int> = Seq::empty();
    while rest.len() > 0
        invariant
            rest@ == all.take(rest.len() as int),
            rest.len() <= all.len(),
            places.len() == kept.len(),
            forall|key: (i128, u64)| #[trigger]
                version_index_contents(unique_versions).contains_key(key) <==> exists|at: int|
                    rest.len() <= at < all.len() && !(#[trigger] all[at]).is_phantom
                        && version_key(all[at]) == key,
            forall|k: int|
                0 <= k < kept.len() ==> rest.len() <= #[trigger] places[k] < all.len()
                    && is_version(all, places[k]) && kept@[k] == all[places[k]],
            forall|i: int, j: int|
                0 <= i < j < kept.len() ==> #[trigger] places[i] > #[trigger] places[j],
            forall|at: int|
                rest.len() <= at < all.len() && #[trigger] is_version(all, at) ==> places.contains(
                    at,
                ),
        decreases rest.len(),
    {
        let ghost at = rest.len() - 1;
        let ghost earlier_index = version_index_contents(unique_versions);
        let ghost earlier_places = places;
        let record = rest.pop().unwrap();
        assert(record == all[at]);
        assert(rest@ =~= all.take(at));
        if !record.is_phantom && version_index_get(
            &unique_versions,
            record.system_time,
            record.size,
        ).is_none() {
            version_index_insert(
                &mut unique_versions,
                record.system_time,
                record.size,
                kept.len(),
            );
            let ghost before = kept@;
            kept.push(record);
            proof {
                places = places.push(at);
                assert(forall|k: int| 0 <= k < before.len() ==> kept@[k] == before[k]);
                assert(is_version(all, at)) by {
                    assert forall|later: int|
                        at < later < all.len() && !(#[trigger] all[later]).is_phantom implies version_key(
                        all[later],
                    ) != version_key(all[at]) by {
                        if version_key(all[later]) == version_key(all[at]) {
                            assert(earlier_index.contains_key(version_key(all[at])));
                        }
                    }
                }
                assert forall|other: int|
                    rest.len() <= other < all.len() && #[trigger] is_version(
                        all,
                        other,
                    ) implies places.contains(other) by {
                    if other == at {
                        assert(places[earlier_places.len() as int] == at);
                    } else {
                        assert(earlier_places.contains(other));
                        let k = choose|k: int|
                            0 <= k < earlier_places.len() && earlier_places[k] == other;
                        assert(places[k] == other);
                    }
                }
                assert forall|key: (i128, u64)| #[trigger]
                    version_index_contents(unique_versions).contains_key(key) <==> exists|other: int|
                        rest.len() <= other < all.len() && !(#[trigger] all[other]).is_phantom
                            && version_key(all[other]) == key by {
                    if key == version_key(all[at]) {
                        assert(!all[at].is_phantom && version_key(all[at]) == key);
                    } else if earlier_index.contains_key(key) {
                        let other = choose|other: int|
                            at < other < all.len() && !(#[trigger] all[other]).is_phantom
                                && version_key(all[other]) == key;
                        assert(!all[other].is_phantom && version_key(all[other]) == key);
                    }
                }
            }
        } else {
            proof {
                assert(!is_version(all, at)) by {
                    if !record.is_phantom {
                        assert(earlier_index.contains_key(version_key(all[at])));
                        let later = choose|later: int|
                            at < later < all.len() && !(#[trigger] all[later]).is_phantom
                                && version_key(all[later]) == version_key(all[at]);
                        assert(!all[later].is_phantom);
                    }
                }
                assert forall|key: (i128, u64)| #[trigger]
                    version_index_contents(unique_versions).contains_key(key) <==> exists|other: int|
                        rest.len() <= other < all.len() && !(#[trigger] all[other]).is_phantom
                            && version_key(all[other]) == key by {
                    if earlier_index.contains_key(key) {
                        let other = choose|other: int|
                            at < other < all.len() && !(#[trigger] all[other]).is_phantom
                                && version_key(all[other]) == key;
                        assert(!all[other].is_phantom && version_key(all[other]) == key);
                    }
                }
            }
        }
    }
    let ghost chosen = kept@;
    proof {
        assert forall|i: int, j: int|
            0 <= i < chosen.len() && 0 <= j < chosen.len() && i != j implies version_key(chosen[i])
            != version_key(chosen[j]) by {
            lemma_versions_differ(all, places[i], places[j]);
        }
    }
    sort_by_time(&mut kept);
    proof {
        let sorted = kept@;
        lemma_same_entries(chosen, sorted);
        assert(chosen.no_duplicates());
        lemma_no_duplicates_kept(chosen, sorted);
        assert forall|k: int| 0 <= k < sorted.len() implies is_version_record(
            #[trigger] sorted[k],
            all,
        ) by {
            assert(sorted.contains(sorted[k]));
            assert(chosen.contains(sorted[k]));
            let c = choose|c: int| 0 <= c < chosen.len() && chosen[c] == sorted[k];
            assert(is_version(all, places[c]));
        }
        assert forall|at: int| #[trigger] is_version(all, at) implies sorted.contains(all[at]) by {
            assert(places.contains(at));
            let c = choose|c: int| 0 <= c < places.len() && places[c] == at;
            assert(chosen[c] == all[at]);
            assert(chosen.contains(all[at]));
        }
        assert forall|i: int, j: int| 0 <= i < j < sorted.len() implies version_key(
            #[trigger] sorted[i],
        ) != version_key(#[trigger] sorted[j]) by {
            assert(sorted.contains(sorted[i]));
            assert(sorted.contains(sorted[j]));
            assert(chosen.contains(sorted[i]));
            assert(chosen.contains(sorted[j]));
            let a = choose|a: int| 0 <= a < chosen.len() && chosen[a] == sorted[i];
            let b = choose|b: int| 0 <= b < chosen.len() && chosen[b] == sorted[j];
            if a == b {
                assert(sorted[i] == sorted[j]);
            }
        }
    }
    kept
}

/// Two candidates that are versions of their own differ in modification
/// time or in size.
pub proof fn lemma_versions_differ(candidates: Seq<PathData>, first: int, second: int)
    requires
        is_version(candidates, first),
        is_version(candidates, second),
        first != second,
    ensures
        version_key(candidates[first]) != version_key(candidates[second]),
{
    if first < second {
        assert(!candidates[second].is_phantom);
    } else {
        assert(!candidates[first].is_phantom);
    }
}

/// The kinds of dataset that a run searches, in the order in which their
/// results are shown: the replicated ones first where they are asked for.
pub open spec fn selected_kinds(opt_alt_replicated: bool) -> Seq<NativeDatasetType> {
    if opt_alt_replicated {
        seq![NativeDatasetType::AltReplicated, NativeDatasetType::MostImmediate]
    } else {
        seq![NativeDatasetType::MostImmediate]
    }
}

/// The kinds of dataset that a run with `config` searches.
pub fn selected_datasets(config: &Config) -> (kinds: Vec<NativeDatasetType>)
    ensures
        kinds@ == selected_kinds(config.opt_alt_replicated),
{
    let mut kinds: Vec<NativeDatasetType> = Vec::new();
    if config.opt_alt_replicated {
        kinds.push(NativeDatasetType::AltReplicated);
    }
    kinds.push(NativeDatasetType::MostImmediate);
    assert(kinds@ =~= selected_kinds(config.opt_alt_replicated));
    kinds
}

/// What the replicated datasets add to the search for `path`: their plans,
/// or nothing where no filesystem replicates the one that owns the path.
pub open spec fn adds_alt_replicated(
    plans: Seq<SearchDirs>,
    snap_point: SnapPoint,
    path: Seq<u8>,
) -> bool {
    ||| search_outcome(Ok(plans), snap_point, path, NativeDatasetType::AltReplicated)
    ||| plans.len() == 0 && search_outcome(
        Err(HttmError::NoAltReplicatedMount),
        snap_point,
        path,
        NativeDatasetType::AltReplicated,
    )
}

/// What the search for one path owes over all the kinds of dataset that
/// are asked for. That no filesystem replicates the one that owns the path
/// is no failure; every other error of a kind fails the search.
pub open spec fn path_outcome(
    found: Result<Seq<SearchDirs>, HttmError>,
    opt_alt_replicated: bool,
    snap_point: SnapPoint,
    path: Seq<u8>,
) -> bool {
    if !opt_alt_replicated {
        search_outcome(found, snap_point, path, NativeDatasetType::MostImmediate)
    } else {
        match found {
            Ok(plans) => exists|alt: Seq<SearchDirs>, immediate: Seq<SearchDirs>|
                #![trigger adds_alt_replicated(alt, snap_point, path), search_outcome(Ok(immediate), snap_point, path, NativeDatasetType::MostImmediate)]
                plans == alt + immediate && adds_alt_replicated(alt, snap_point, path)
                    && search_outcome(
                    Ok(immediate),
                    snap_point,
                    path,
                    NativeDatasetType::MostImmediate,
                ),
            Err(error) => error != HttmError::NoAltReplicatedMount && {
                ||| search_outcome(
                    Err(error),
                    snap_point,
                    path,
                    NativeDatasetType::AltReplicated,
                )
                ||| search_outcome(
                    Err(error),
                    snap_point,
                    path,
                    NativeDatasetType::MostImmediate,
                )
            },
        }
    }
}

/// Plans the search for the versions of one path over all the kinds of
/// dataset that `config` asks for.
pub fn get_search_dirs_of_path(config: &Config, file_pathdata: &PathData) -> (found: Result<
    Vec<SearchDirs>,
    HttmError,
>)
    ensures
        path_outcome(
            plans_view(found),
            config.opt_alt_replicated,
            config.snap_point,
            file_pathdata.path_buf@,
        ),
{
    let mut plans: Vec<SearchDirs> = Vec::new();
    if config.opt_alt_replicated {
        match get_search_dirs(config, file_pathdata, &NativeDatasetType::AltReplicated) {
            Ok(mut alt) => {
                plans.append(&mut alt);
            },
            Err(error) => {
                if error != HttmError::NoAltReplicatedMount {
                    return Err(error);
                }
            },
        }
    }
    let ghost alt = plans@;
    match get_search_dirs(config, file_pathdata, &NativeDatasetType::MostImmediate) {
        Ok(mut immediate) => {
            let ghost added = immediate@;
            plans.append(&mut immediate);
            proof {
                if config.opt_alt_replicated {
                    assert(plans@ == alt + added);
                    assert(adds_alt_replicated(alt, config.snap_point, file_pathdata.path_buf@));
                } else {
                    assert(plans@ =~= added);
                }
            }
            Ok(plans)
        },
        Err(error) => {
            proof {
                if config.opt_alt_replicated {
                    lemma_most_immediate_never_lacks_replica(
                        config.snap_point,
                        file_pathdata.path_buf@,
                    );
                }
            }
            Err(error)
        },
    }
}

/// The search of the dataset that owns a path never fails for want of a
/// replica.
pub proof fn lemma_most_immediate_never_lacks_replica(snap_point: SnapPoint, path: Seq<u8>)
    ensures
        !search_outcome(
            Err(HttmError::NoAltReplicatedMount),
            snap_point,
            path,
            NativeDatasetType::MostImmediate,
        ),
{
}

/// Whether the search for `path` succeeds.
pub open spec fn path_search_succeeds(
    opt_alt_replicated: bool,
    snap_point: SnapPoint,
    path: Seq<u8>,
) -> bool {
    exists|plans: Seq<SearchDirs>| #[trigger]
        path_outcome(Ok(plans), opt_alt_replicated, snap_point, path)
}

/// What the search for several paths owes: the plans of each path in the
/// order of the paths, or the error of the first path whose search fails.
pub open spec fn all_paths_outcome(
    found: Result<Seq<SearchDirs>, HttmError>,
    opt_alt_replicated: bool,
    snap_point: SnapPoint,
    path_data: Seq<PathData>,
) -> bool {
    match found {
        Ok(plans) => exists|parts: Seq<Seq<SearchDirs>>|
            #![trigger parts.flatten()]
            parts.len() == path_data.len() && plans == parts.flatten() && forall|i: int|
                0 <= i < parts.len() ==> path_outcome(
                    Ok(#[trigger] parts[i]),
                    opt_alt_replicated,
                    snap_point,
                    path_data[i].path_buf@,
                ),
        Err(error) => exists|i: int|
            0 <= i < path_data.len() && #[trigger] path_outcome(
                Err(error),
                opt_alt_replicated,
                snap_point,
                path_data[i].path_buf@,
            ) && forall|n: int|
                0 <= n < i ==> path_search_succeeds(
                    opt_alt_replicated,
                    snap_point,
                    (#[trigger] path_data[n]).path_buf@,
                ),
    }
}

/// Plans the search for the versions of each of `path_data`.
pub fn get_all_search_dirs(config: &Config, path_data: &Vec<PathData>) -> (found: Result<
    Vec<SearchDirs>,
    HttmError,
>)
    ensures
        all_paths_outcome(
            plans_view(found),
            config.opt_alt_replicated,
            config.snap_point,
            path_data@,
        ),
{
    let mut plans: Vec<SearchDirs> = Vec::new();
    let ghost mut parts: Seq<Seq<SearchDirs>> = Seq::empty();
    let mut i: usize = 0;
    assert(parts.flatten() =~= Seq::<SearchDirs>::empty());
    while i < path_data.len()
        invariant
            i <= path_data.len(),
            parts.len() == i,
            plans@ == parts.flatten(),
            forall|n: int|
                0 <= n < i ==> path_outcome(
                    Ok(#[trigger] parts[n]),
                    config.opt_alt_replicated,
                    config.snap_point,
                    path_data@[n].path_buf@,
                ),
        decreases path_data.len() - i,
    {
        match get_search_dirs_of_path(config, &path_data[i]) {
            Ok(mut part) => {
                proof {
                    parts.lemma_flatten_push(part@);
                    parts = parts.push(part@);
                }
                plans.append(&mut part);
            },
            Err(error) => {
                proof {
                    assert forall|n: int| 0 <= n < i implies path_search_succeeds(
                        config.opt_alt_replicated,
                        config.snap_point,
                        (#[trigger] path_data@[n]).path_buf@,
                    ) by {
                        assert(path_outcome(
                            Ok(parts[n]),
                            config.opt_alt_replicated,
                            config.snap_point,
                            path_data@[n].path_buf@,
                        ));
                    }
                }
                return Err(error);
            },
        }
        i = i + 1;
    }
    Ok(plans)
}

/// The live copies that a lookup of `path_data` reports: the requested
/// paths themselves, or none where the caller does not want them.
pub open spec fn live_versions_of(opt_no_live_vers: bool, path_data: Seq<PathData>) -> Seq<
    PathDataView,
> {
    if opt_no_live_vers {
        Seq::empty()
    } else {
        record_views(path_data)
    }
}

/// Whether `all_snaps` holds the versions of each of `candidates`, the
/// records of one search each, in the order of the searches.
pub open spec fn is_history(all_snaps: Seq<PathData>, candidates: Seq<Vec<PathData>>) -> bool {
    exists|parts: Seq<Seq<PathData>>|
        #![trigger parts.flatten()]
        parts.len() == candidates.len() && all_snaps == parts.flatten() && forall|n: int|
            0 <= n < parts.len() ==> lists_versions(#[trigger] parts[n], candidates[n]@)
}

/// Whether no snapshot holds a version: every candidate is a phantom.
pub open spec fn no_version_exists(candidates: Seq<Vec<PathData>>) -> bool {
    forall|n: int, k: int|
        0 <= n < candidates.len() && 0 <= k < candidates[n]@.len() ==> (
        #[trigger] candidates[n]@[k]).is_phantom
}

/// Whether every live copy that is reported is a phantom.
pub open spec fn no_live_exists(live: Seq<PathDataView>) -> bool {
    forall|i: int| 0 <= i < live.len() ==> (#[trigger] live[i]).is_phantom
}

/// What `lookup_exec` owes: the versions that the snapshots hold and the
/// live copies, or `NothingEverExisted` where no snapshot holds a version
/// and every live copy that is reported is a phantom.
pub open spec fn lookup_outcome(
    found: Result<[Vec<PathData>; 2], HttmError>,
    opt_no_live_vers: bool,
    path_data: Seq<PathData>,
    candidates: Seq<Vec<PathData>>,
) -> bool {
    let live = live_versions_of(opt_no_live_vers, path_data);
    let nothing = no_version_exists(candidates) && no_live_exists(live);
    match found {
        Ok(sets) => !nothing && is_history(sets[0]@, candidates) && record_views(sets[1]@) == live,
        Err(error) => nothing && error == HttmError::NothingEverExisted,
    }
}

/// Every candidate is a phantom exactly where no version is listed.
pub proof fn lemma_versions_or_phantoms(versions: Seq<PathData>, candidates: Seq<PathData>)
    requires
        lists_versions(versions, candidates),
    ensures
        versions.len() == 0 <==> forall|at: int|
            0 <= at < candidates.len() ==> (#[trigger] candidates[at]).is_phantom,
{
    if versions.len() > 0 {
        assert(is_version_record(versions[0], candidates));
        let at = choose|at: int| #[trigger] is_version(candidates, at) && candidates[at] == versions[0];
        assert(!candidates[at].is_phantom);
    } else if exists|at: int| 0 <= at < candidates.len() && !(#[trigger] candidates[at]).is_phantom {
        let at = choose|at: int| 0 <= at < candidates.len() && !(#[trigger] candidates[at]).is_phantom;
        lemma_last_version_exists(candidates, at);
        let last = choose|last: int| #[trigger] is_version(candidates, last);
        assert(versions.contains(candidates[last]));
    }
}

/// Where a candidate is no phantom, some candidate is a version of its
/// own.
pub proof fn lemma_last_version_exists(candidates: Seq<PathData>, at: int)
    requires
        0 <= at < candidates.len(),
        !candidates[at].is_phantom,
    ensures
        exists|last: int| #[trigger] is_version(candidates, last),
    decreases candidates.len() - at,
{
    if !is_version(candidates, at) {
        let later = choose|later: int|
            at < later < candidates.len() && !(#[trigger] candidates[later]).is_phantom
                && version_key(candidates[later]) == version_key(candidates[at]);
        lemma_last_version_exists(candidates, later);
    }
}

/// Puts the result of a lookup together. `candidates` holds, for each
/// planned search in order, the records of the paths that the search
/// probes: the candidate paths of the plan with the metadata that was
/// read for them. The versions of each search are picked and put one after
/// another; the live copies are the requested paths.
pub fn lookup_exec(config: &Config, path_data: &Vec<PathData>, candidates: Vec<Vec<PathData>>) -> (found:
    Result<[Vec<PathData>; 2], HttmError>)
    ensures
        lookup_outcome(found, config.opt_no_live_vers, path_data@, candidates@),
{
    let mut all_snaps: Vec<PathData> = Vec::new();
    let ghost mut parts: Seq<Seq<PathData>> = Seq::empty();
    let ghost searches = candidates@;
    assert(parts.flatten() =~= Seq::<PathData>::empty());
    for search in each: candidates
        invariant
            each.seq() == searches,
            parts.len() == each.index(),
            all_snaps@ == parts.flatten(),
            forall|n: int|
                0 <= n < parts.len() ==> lists_versions(#[trigger] parts[n], searches[n]@),
            all_snaps.len() == 0 <==> forall|n: int, k: int|
                0 <= n < parts.len() && 0 <= k < searches[n]@.len() ==> (
                #[trigger] searches[n]@[k]).is_phantom,
    {
        let ghost probed = search@;
        let ghost before = all_snaps@;
        let mut versions = get_versions(search);
        proof {
            lemma_versions_or_phantoms(versions@, probed);
            parts.lemma_flatten_push(versions@);
            parts = parts.push(versions@);
        }
        all_snaps.append(&mut versions);
        proof {
            if all_snaps.len() == 0 {
                assert(before.len() == 0);
            }
        }
    }
    let mut live_versions: Vec<PathData> = Vec::new();
    let mut all_phantom = true;
    if !config.opt_no_live_vers {
        let mut i: usize = 0;
        while i < path_data.len()
            invariant
                i <= path_data.len(),
                live_versions.len() == i,
                record_views(live_versions@) == record_views(path_data@.take(i as int)),
                all_phantom == forall|n: int| 0 <= n < i ==> (#[trigger] path_data@[n]).is_phantom,
            decreases path_data.len() - i,
        {
            let ghost before = live_versions@;
            live_versions.push(path_data[i].duplicate());
            if !path_data[i].is_phantom {
                all_phantom = false;
            }
            i = i + 1;
            assert forall|n: int| 0 <= n < i implies record_views(live_versions@)[n] == record_views(
                path_data@.take(i as int),
            )[n] by {
                if n < i - 1 {
                    assert(live_versions@[n] == before[n]);
                    assert(record_views(before)[n] == record_views(
                        path_data@.take(i as int - 1),
                    )[n]);
                }
            }
            assert(record_views(live_versions@) =~= record_views(path_data@.take(i as int)));
        }
        assert(path_data@.take(path_data.len() as int) =~= path_data@);
    } else {
        assert(record_views(live_versions@) =~= Seq::<PathDataView>::empty());
    }
    let ghost live = live_versions_of(config.opt_no_live_vers, path_data@);
    proof {
        if all_phantom {
            assert forall|i: int| 0 <= i < live.len() implies (#[trigger] live[i]).is_phantom by {
                assert(path_data@[i].is_phantom);
            }
        } else {
            let n = choose|n: int| 0 <= n < path_data.len() && !(#[trigger] path_data@[n]).is_phantom;
            assert(!live[n].is_phantom);
        }
        assert(is_history(all_snaps@, searches));
    }
    if all_snaps.len() == 0 && all_phantom {
        return Err(HttmError::NothingEverExisted);
    }
    Ok([all_snaps, live_versions])
}

} // verus!
