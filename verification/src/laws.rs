//! What holds of the results, stated over the functions' contracts.

use vstd::prelude::*;
use crate::data::{
    record_views, FilesystemAndMount, HttmError, PathAndMaybeFileType, PathData, SnapPoint,
};
use crate::deleted::{has_name, is_deleted, is_last_named, lists_deleted};
use crate::lookup::{
    contains_parent, first_mounted_at, is_alt_replicated, is_alt_replicated_mount, is_immediate,
    is_version, searches_each,
    is_history, is_version_record, lists_alt_replicated, lists_versions, live_versions_of,
    lookup_outcome,
    no_live_exists, no_version_exists, parent_components, replicates, search_outcome, searches,
    snapshot_dir_name,
    version_key,
    NativeDatasetType, SearchDirs,
};
use crate::path::{
    components, joined, joined_components, leading, named, path_starts_with, root_component,
    segments, stripped, SEPARATOR,
};
use crate::path_laws::{
    are_plain, is_plain, lemma_join_adds_components, lemma_segments_hold_no_separator,
    lemma_stripped_path_joins,
};

verus! {

/// Every version that is listed is one of the candidates and no phantom.
pub proof fn lemma_versions_are_candidates(versions: Seq<PathData>, candidates: Seq<PathData>)
    requires
        lists_versions(versions, candidates),
    ensures
        forall|k: int|
            0 <= k < versions.len() ==> !(#[trigger] versions[k]).is_phantom
                && candidates.contains(versions[k]),
{
    assert forall|k: int| 0 <= k < versions.len() implies !(#[trigger] versions[k]).is_phantom
        && candidates.contains(versions[k]) by {
        assert(is_version_record(versions[k], candidates));
        let at = choose|at: int| #[trigger] is_version(candidates, at) && candidates[at] == versions[k];
        assert(candidates[at] == versions[k]);
    }
}

/// Two listed versions with the same modification time and the same size
/// are one: only one record of each such pair is listed.
pub proof fn lemma_one_version_of_each_key(
    versions: Seq<PathData>,
    candidates: Seq<PathData>,
    first: int,
    second: int,
)
    requires
        lists_versions(versions, candidates),
        0 <= first < versions.len(),
        0 <= second < versions.len(),
        versions[first].system_time == versions[second].system_time,
        versions[first].size == versions[second].size,
    ensures
        first == second,
{
    if first < second {
        assert(version_key(versions[first]) != version_key(versions[second]));
    } else if second < first {
        assert(version_key(versions[second]) != version_key(versions[first]));
    }
}

/// The listed versions come in order of modification time: of two of
/// them, the later in the list was not modified before the earlier.
pub proof fn lemma_versions_in_order(
    versions: Seq<PathData>,
    candidates: Seq<PathData>,
    earlier: int,
    later: int,
)
    requires
        lists_versions(versions, candidates),
        0 <= earlier <= later < versions.len(),
    ensures
        versions[earlier].system_time <= versions[later].system_time,
{
}

/// Every candidate that is no phantom has a listed version with its
/// modification time and size.
pub proof fn lemma_every_candidate_has_a_version(
    versions: Seq<PathData>,
    candidates: Seq<PathData>,
    at: int,
)
    requires
        lists_versions(versions, candidates),
        0 <= at < candidates.len(),
        !candidates[at].is_phantom,
    ensures
        exists|k: int|
            0 <= k < versions.len() && version_key(#[trigger] versions[k]) == version_key(
                candidates[at],
            ),
    decreases candidates.len() - at,
{
    if is_version(candidates, at) {
        assert(versions.contains(candidates[at]));
        let k = choose|k: int| 0 <= k < versions.len() && versions[k] == candidates[at];
        assert(version_key(versions[k]) == version_key(candidates[at]));
    } else {
        let later = choose|later: int|
            at < later < candidates.len() && !(#[trigger] candidates[later]).is_phantom
                && version_key(candidates[later]) == version_key(candidates[at]);
        lemma_every_candidate_has_a_version(versions, candidates, later);
    }
}

/// Where no snapshot holds the file, no version is listed.
pub proof fn lemma_no_versions_without_snapshots(versions: Seq<PathData>, candidates: Seq<PathData>)
    requires
        lists_versions(versions, candidates),
        forall|at: int| 0 <= at < candidates.len() ==> (#[trigger] candidates[at]).is_phantom,
    ensures
        versions.len() == 0,
{
    if versions.len() > 0 {
        assert(is_version_record(versions[0], candidates));
    }
}

/// A lookup of live files that no snapshot holds returns no versions and
/// the files themselves, unless the caller does not want the live copies.
pub proof fn lemma_lookup_of_unsnapshotted_files(
    found: Result<[Vec<PathData>; 2], HttmError>,
    path_data: Seq<PathData>,
    candidates: Seq<Vec<PathData>>,
)
    requires
        lookup_outcome(found, false, path_data, candidates),
        no_version_exists(candidates),
        exists|i: int| 0 <= i < path_data.len() && !(#[trigger] path_data[i]).is_phantom,
    ensures
        found is Ok,
        found->Ok_0[0]@.len() == 0,
        record_views(found->Ok_0[1]@) == record_views(path_data),
{
    let live = live_versions_of(false, path_data);
    let i = choose|i: int| 0 <= i < path_data.len() && !(#[trigger] path_data[i]).is_phantom;
    assert(!live[i].is_phantom);
    assert(!no_live_exists(live));
    lemma_history_without_versions(found->Ok_0[0]@, candidates);
}

/// Where every candidate is a phantom, the history is empty.
pub proof fn lemma_history_without_versions(all_snaps: Seq<PathData>, candidates: Seq<Vec<PathData>>)
    requires
        is_history(all_snaps, candidates),
        no_version_exists(candidates),
    ensures
        all_snaps.len() == 0,
{
    let parts = choose|parts: Seq<Seq<PathData>>|
        #![trigger parts.flatten()]
        parts.len() == candidates.len() && all_snaps == parts.flatten() && forall|n: int|
            0 <= n < parts.len() ==> lists_versions(#[trigger] parts[n], candidates[n]@);
    assert forall|n: int| 0 <= n < parts.len() implies (#[trigger] parts[n]).len() == 0 by {
        assert(lists_versions(parts[n], candidates[n]@));
        assert forall|k: int| 0 <= k < candidates[n]@.len() implies (
        #[trigger] candidates[n]@[k]).is_phantom by {}
        lemma_no_versions_without_snapshots(parts[n], candidates[n]@);
    }
    lemma_flatten_of_empty_parts(parts);
}

/// Parts that are all empty make an empty whole.
pub proof fn lemma_flatten_of_empty_parts(parts: Seq<Seq<PathData>>)
    requires
        forall|n: int| 0 <= n < parts.len() ==> (#[trigger] parts[n]).len() == 0,
    ensures
        parts.flatten().len() == 0,
    decreases parts.len(),
{
    if parts.len() > 0 {
        let rest = parts.drop_first();
        assert forall|n: int| 0 <= n < rest.len() implies (#[trigger] rest[n]).len() == 0 by {
            assert(rest[n] == parts[n + 1]);
        }
        lemma_flatten_of_empty_parts(rest);
        assert(parts.first().len() == 0);
    }
}

/// A lookup fails exactly where no snapshot holds a version and every
/// live copy that is reported is a phantom, and then because nothing ever
/// existed.
pub proof fn lemma_lookup_fails_where_nothing_exists(
    found: Result<[Vec<PathData>; 2], HttmError>,
    opt_no_live_vers: bool,
    path_data: Seq<PathData>,
    candidates: Seq<Vec<PathData>>,
)
    requires
        lookup_outcome(found, opt_no_live_vers, path_data, candidates),
    ensures
        found is Err <==> no_version_exists(candidates) && no_live_exists(
            live_versions_of(opt_no_live_vers, path_data),
        ),
        found is Err ==> found->Err_0 == HttmError::NothingEverExisted,
{
}

/// The file name of every entry that is listed as deleted is the name of
/// an entry of some snapshot and of no live entry.
pub proof fn lemma_deleted_only_in_snapshots(
    deleted: Seq<PathAndMaybeFileType>,
    local_entries: Seq<PathAndMaybeFileType>,
    snapshot_entries: Seq<PathAndMaybeFileType>,
    k: int,
)
    requires
        lists_deleted(deleted, local_entries, snapshot_entries),
        0 <= k < deleted.len(),
    ensures
        crate::path::file_name_of(deleted[k].path@) is Some,
        has_name(snapshot_entries, crate::path::file_name_of(deleted[k].path@)->0),
        !has_name(local_entries, crate::path::file_name_of(deleted[k].path@)->0),
{
    let at = choose|at: int| #[trigger]
        is_deleted(local_entries, snapshot_entries, at) && snapshot_entries[at]@ == deleted[k]@;
    assert(snapshot_entries[at].path@ == deleted[k].path@);
}

/// Of the first `upto` entries, one is the last with the name `name`
/// where any has it.
pub proof fn lemma_last_named_exists(
    entries: Seq<PathAndMaybeFileType>,
    upto: int,
    name: Seq<u8>,
) -> (at: int)
    requires
        0 <= upto <= entries.len(),
        exists|seen: int|
            0 <= seen < upto && crate::path::file_name_of((#[trigger] entries[seen]).path@) == Some(
                name,
            ),
    ensures
        is_last_named(entries, upto, name, at),
    decreases upto,
{
    if crate::path::file_name_of(entries[upto - 1].path@) == Some(name) {
        upto - 1
    } else {
        let seen = choose|seen: int|
            0 <= seen < upto && crate::path::file_name_of((#[trigger] entries[seen]).path@) == Some(
                name,
            );
        assert(crate::path::file_name_of(entries[seen].path@) == Some(name));
        let at = lemma_last_named_exists(entries, upto - 1, name);
        at
    }
}

/// A file that some snapshot holds and the live directory lacks is listed
/// as deleted: the list holds an entry with its file name.
pub proof fn lemma_file_in_snapshot_only_is_deleted(
    deleted: Seq<PathAndMaybeFileType>,
    local_entries: Seq<PathAndMaybeFileType>,
    snapshot_entries: Seq<PathAndMaybeFileType>,
    name: Seq<u8>,
)
    requires
        lists_deleted(deleted, local_entries, snapshot_entries),
        has_name(snapshot_entries, name),
        !has_name(local_entries, name),
    ensures
        has_name(deleted, name),
{
    let at = lemma_last_named_exists(snapshot_entries, snapshot_entries.len() as int, name);
    assert(is_deleted(local_entries, snapshot_entries, at));
    let k = choose|k: int|
        0 <= k < deleted.len() && (#[trigger] deleted[k])@ == snapshot_entries[at]@;
    assert(deleted[k].path@ == snapshot_entries[at].path@);
}

/// The most immediate dataset is the longest of those that contain the
/// parent of the path.
pub proof fn lemma_immediate_is_longest(
    path: Seq<u8>,
    mounts: Seq<FilesystemAndMount>,
    at: int,
    other: int,
)
    requires
        is_immediate(path, mounts, at),
        0 <= other < mounts.len(),
        contains_parent(path, mounts[other].mount@),
    ensures
        contains_parent(path, mounts[at].mount@),
        mounts[other].mount@.len() <= mounts[at].mount@.len(),
{
}

/// At most one line of the inventory is the most immediate dataset of a
/// path.
pub proof fn lemma_immediate_is_unique(
    path: Seq<u8>,
    mounts: Seq<FilesystemAndMount>,
    first: int,
    second: int,
)
    requires
        is_immediate(path, mounts, first),
        is_immediate(path, mounts, second),
    ensures
        first == second,
{
}

/// Every mount point that is listed as replicated belongs to a filesystem
/// whose name ends with the name of the immediate filesystem and is not
/// that name.
pub proof fn lemma_replicas_are_named_after_the_immediate(
    alts: Seq<Seq<u8>>,
    mounts: Seq<FilesystemAndMount>,
    immediate_at: int,
    k: int,
)
    requires
        lists_alt_replicated(alts, mounts, immediate_at),
        0 <= k < alts.len(),
    ensures
        exists|at: int|
            0 <= at < mounts.len() && (#[trigger] mounts[at]).mount@ == alts[k] && replicates(
                mounts[at].filesystem@,
                mounts[immediate_at].filesystem@,
            ),
{
    assert(is_alt_replicated_mount(alts[k], mounts, immediate_at));
    let at = choose|at: int| #[trigger]
        is_alt_replicated(mounts, immediate_at, at) && mounts[at].mount@ == alts[k];
    assert(mounts[at].mount@ == alts[k]);
}

/// A path begins with itself, and nothing is left of it once it is taken
/// from its own front.
pub proof fn lemma_strip_self(path: Seq<u8>)
    ensures
        path_starts_with(path, path),
        stripped(path, path) == Some(Seq::<u8>::empty()),
{
    let parts = components(path);
    assert(parts =~= parts.subrange(0, parts.len() as int));
    assert(parts.skip(parts.len() as int) =~= Seq::<Seq<u8>>::empty());
}

/// A dataset that contains the parent of a path contains the path, unless
/// the path has no component at all.
pub proof fn lemma_owner_contains_path(path: Seq<u8>, mount: Seq<u8>)
    requires
        contains_parent(path, mount),
        components(path).len() > 0,
    ensures
        path_starts_with(path, mount),
{
    let parts = components(path);
    let base = components(mount);
    let parent = parent_components(parts);
    if parts.last() == root_component() {
        assert(base =~= parent.subrange(0, base.len() as int));
        if base.len() == 1 {
            assert(base[0] == parent[0]);
            assert(parts[parts.len() - 1] == root_component());
            lemma_root_comes_first(path, parts.len() - 1);
        }
        assert(base =~= parts.subrange(0, base.len() as int));
    } else {
        assert(base =~= parent.subrange(0, base.len() as int));
        assert(base =~= parts.subrange(0, base.len() as int));
    }
}

/// The root is a component only at the front of a path.
pub proof fn lemma_root_comes_first(path: Seq<u8>, at: int)
    requires
        0 <= at < components(path).len(),
        components(path)[at] == root_component(),
    ensures
        at == 0,
{
    let head = leading(path);
    let body = segments(path).filter(named());
    if at >= head.len() {
        let within = at - head.len();
        assert(components(path)[at] == body[within]);
        segments(path).lemma_filter_contains_rev(named(), body[within]);
        let origin = choose|origin: int|
            0 <= origin < segments(path).len() && segments(path)[origin] == body[within];
        lemma_segments_hold_no_separator(path, origin, 0);
        assert(root_component()[0] == SEPARATOR);
    } else {
        assert(head.len() == 1);
    }
}

/// Under directories that the operator has named, the search for a path
/// that is not below the live directory fails, and as the wrong working
/// directory.
pub proof fn lemma_wrong_working_directory(
    found: Result<Seq<SearchDirs>, HttmError>,
    snap_point: SnapPoint,
    path: Seq<u8>,
    kind: NativeDatasetType,
)
    requires
        search_outcome(found, snap_point, path, kind),
        snap_point is UserDefined,
        !path_starts_with(path, snap_point->UserDefined_0.local_dir@),
    ensures
        found == Err::<Seq<SearchDirs>, HttmError>(HttmError::WrongWorkingDirectory),
{
    let dirs = snap_point->UserDefined_0;
    match found {
        Ok(plans) => {
            assert(plans.len() == 1);
            assert(searches(plans[0], path, seq![dirs.snap_dir@][0], dirs.local_dir@));
        },
        Err(error) => {},
    }
}

/// The root is its own dataset and its own parent: a dataset mounted at
/// the root contains the parent of the root, and nothing is left of the
/// root below it.
pub proof fn lemma_root_owns_itself(path: Seq<u8>, mount: Seq<u8>)
    requires
        components(path) == seq![root_component()],
        components(mount) == seq![root_component()],
    ensures
        contains_parent(path, mount),
        stripped(path, mount) == Some(Seq::<u8>::empty()),
{
    let parts = components(path);
    assert(parts.last() == root_component());
    assert(parent_components(parts) == seq![root_component()]);
    assert(components(mount) =~= parent_components(parts).subrange(0, 1));
    assert(components(mount) =~= parts.subrange(0, 1));
    assert(parts.skip(1) =~= Seq::<Seq<u8>>::empty());
}

/// The snapshot directory of a search is the directory `.zfs/snapshot`
/// below the dataset.
pub proof fn lemma_snapshot_dir_is_below_the_dataset(
    plan: SearchDirs,
    path: Seq<u8>,
    dataset: Seq<u8>,
    reference: Seq<u8>,
)
    requires
        searches(plan, path, dataset, reference),
    ensures
        components(plan.hidden_snapshot_dir@) == components(dataset) + seq![
            seq![46u8, 122u8, 102u8, 115u8],
            seq![115u8, 110u8, 97u8, 112u8, 115u8, 104u8, 111u8, 116u8],
        ],
{
    let zfs = seq![46u8, 122u8, 102u8, 115u8];
    let snapshot = seq![115u8, 110u8, 97u8, 112u8, 115u8, 104u8, 111u8, 116u8];
    let parts = seq![zfs, snapshot];
    assert(is_plain(zfs)) by {
        assert(zfs.len() == 4);
    }
    assert(is_plain(snapshot)) by {
        assert(snapshot.len() == 8);
    }
    assert(are_plain(parts));
    assert(parts.drop_last() =~= seq![zfs]);
    assert(zfs != root_component()) by {
        assert(zfs.len() == 4);
    }
    assert(joined_components(parts) =~= snapshot_dir_name()) by {
        assert(joined_components(parts.drop_last()) == zfs);
        assert(joined_components(parts) == zfs + seq![SEPARATOR] + snapshot);
    }
    lemma_join_adds_components(dataset, parts);
}

/// In each snapshot a search probes the path that the file has below its
/// dataset: the path made of the components of the snapshot directory
/// followed by the components that the file has below the mount point.
pub proof fn lemma_candidate_is_the_file_in_the_snapshot(
    plan: SearchDirs,
    path: Seq<u8>,
    dataset: Seq<u8>,
    reference: Seq<u8>,
    snapshot: Seq<u8>,
)
    requires
        searches(plan, path, dataset, reference),
        components(reference).len() > 0,
    ensures
        path_starts_with(path, reference),
        components(joined(snapshot, plan.relative_path@)) == components(snapshot) + components(
            path,
        ).skip(components(reference).len() as int),
{
    lemma_stripped_path_joins(path, reference, snapshot);
}

/// At most one line of the inventory is the first that is mounted at a
/// mount point.
pub proof fn lemma_first_mounted_is_unique(
    mounts: Seq<FilesystemAndMount>,
    mount: Seq<u8>,
    first: int,
    second: int,
)
    requires
        first_mounted_at(mounts, mount, first),
        first_mounted_at(mounts, mount, second),
    ensures
        first == second,
{
}

/// A search either finds its plans or fails, never both: what the
/// contract of a search says of a success and what it says of a failure
/// cannot hold of the same request.
pub proof fn lemma_search_succeeds_or_fails(
    plans: Seq<SearchDirs>,
    error: HttmError,
    snap_point: SnapPoint,
    path: Seq<u8>,
    kind: NativeDatasetType,
)
    requires
        search_outcome(Ok(plans), snap_point, path, kind),
    ensures
        !search_outcome(Err(error), snap_point, path, kind),
{
    if search_outcome(Err(error), snap_point, path, kind) {
        match snap_point {
            SnapPoint::UserDefined(dirs) => {
                assert(searches(plans[0], path, seq![dirs.snap_dir@][0], dirs.local_dir@));
            },
            SnapPoint::Native(mount_collection) => {
                let mounts = mount_collection@;
                match kind {
                    NativeDatasetType::MostImmediate => {
                        let at = choose|at: int| #[trigger]
                            is_immediate(path, mounts, at) && searches_each(
                                plans,
                                path,
                                seq![mounts[at].mount@],
                                mounts[at].mount@,
                            );
                        assert(searches(plans[0], path, seq![mounts[at].mount@][0], mounts[at].mount@));
                        assert(contains_parent(path, mounts[at].mount@));
                        if error == HttmError::WrongWorkingDirectory {
                            let other = choose|other: int| #[trigger]
                                is_immediate(path, mounts, other) && stripped(
                                    path,
                                    mounts[other].mount@,
                                ) is None;
                            lemma_immediate_is_unique(path, mounts, at, other);
                        }
                    },
                    NativeDatasetType::AltReplicated => {
                        let (at, immediate_at, alts) = choose|
                            at: int,
                            immediate_at: int,
                            alts: Seq<Seq<u8>>,
                        |
                            #![trigger is_immediate(path, mounts, at), lists_alt_replicated(alts, mounts, immediate_at)]
                            is_immediate(path, mounts, at) && first_mounted_at(
                                mounts,
                                mounts[at].mount@,
                                immediate_at,
                            ) && lists_alt_replicated(alts, mounts, immediate_at) && searches_each(
                                plans,
                                path,
                                alts,
                                mounts[at].mount@,
                            );
                        assert(contains_parent(path, mounts[at].mount@));
                        assert(searches(plans[0], path, alts[0], mounts[at].mount@));
                        assert(is_alt_replicated_mount(alts[0], mounts, immediate_at));
                        let replica = choose|replica: int| #[trigger]
                            is_alt_replicated(mounts, immediate_at, replica) && mounts[replica].mount@
                                == alts[0];
                        if error == HttmError::NoAltReplicatedMount {
                            let (other, other_at) = choose|other: int, other_at: int|
                                #![trigger is_immediate(path, mounts, other), first_mounted_at(mounts, mounts[other].mount@, other_at)]
                                is_immediate(path, mounts, other) && first_mounted_at(
                                    mounts,
                                    mounts[other].mount@,
                                    other_at,
                                ) && forall|any: int| !#[trigger] is_alt_replicated(mounts, other_at, any);
                            lemma_immediate_is_unique(path, mounts, at, other);
                            lemma_first_mounted_is_unique(
                                mounts,
                                mounts[at].mount@,
                                immediate_at,
                                other_at,
                            );
                            assert(is_alt_replicated(mounts, other_at, replica));
                        } else if error == HttmError::WrongWorkingDirectory {
                            let (other, other_at) = choose|other: int, other_at: int|
                                #![trigger is_immediate(path, mounts, other), first_mounted_at(mounts, mounts[other].mount@, other_at)]
                                is_immediate(path, mounts, other) && first_mounted_at(
                                    mounts,
                                    mounts[other].mount@,
                                    other_at,
                                ) && (exists|any: int| #[trigger] is_alt_replicated(mounts, other_at, any))
                                    && stripped(path, mounts[other].mount@) is None;
                            lemma_immediate_is_unique(path, mounts, at, other);
                        }
                    },
                }
            },
        }
    }
}

} // verus!
