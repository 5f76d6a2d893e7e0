//! The records that the library works on.

use vstd::prelude::*;
use crate::bytes::copy_bytes;

verus! {

/// What kind of file a directory entry is.
#[derive(Clone, Copy, Debug, PartialEq, Eq, Structural)]
pub enum FileKind {
    Regular,
    Directory,
    Symlink,
    Other,
}

/// A directory entry: its path, and its kind where that could be read.
#[derive(Clone, Debug, PartialEq, Eq)]
pub struct PathAndMaybeFileType {
    pub path: Vec<u8>,
    pub file_type: Option<FileKind>,
}

/// A `PathAndMaybeFileType` as a plain value.
pub struct EntryView {
    pub path: Seq<u8>,
    pub file_type: Option<FileKind>,
}

impl View for PathAndMaybeFileType {
    type V = EntryView;

    open spec fn view(&self) -> EntryView {
        EntryView { path: self.path@, file_type: self.file_type }
    }
}

impl PathAndMaybeFileType {
    /// A copy of this entry.
    pub fn duplicate(&self) -> (copy: PathAndMaybeFileType)
        ensures
            copy@ == self@,
    {
        PathAndMaybeFileType { path: copy_bytes(&self.path), file_type: self.file_type }
    }
}

/// A live or historical path with the metadata that was read when the
/// record was made. `system_time` counts nanoseconds from the Unix epoch.
/// A phantom is a path whose metadata could not be read.
#[derive(Clone, Debug, PartialEq, Eq)]
pub struct PathData {
    pub path_buf: Vec<u8>,
    pub system_time: i128,
    pub size: u64,
    pub is_phantom: bool,
}

/// A `PathData` as a plain value.
pub struct PathDataView {
    pub path_buf: Seq<u8>,
    pub system_time: i128,
    pub size: u64,
    pub is_phantom: bool,
}

impl View for PathData {
    type V = PathDataView;

    open spec fn view(&self) -> PathDataView {
        PathDataView {
            path_buf: self.path_buf@,
            system_time: self.system_time,
            size: self.size,
            is_phantom: self.is_phantom,
        }
    }
}

impl PathData {
    /// The record of a path whose metadata was read.
    pub fn new(path_buf: Vec<u8>, system_time: i128, size: u64) -> (record: PathData)
        ensures
            record.path_buf == path_buf,
            record.system_time == system_time,
            record.size == size,
            !record.is_phantom,
    {
        PathData { path_buf, system_time, size, is_phantom: false }
    }

    /// The record of a path whose metadata could not be read: its time is
    /// the epoch and its size is zero.
    pub fn phantom(path_buf: Vec<u8>) -> (record: PathData)
        ensures
            record.path_buf == path_buf,
            record.system_time == 0,
            record.size == 0,
            record.is_phantom,
    {
        PathData { path_buf, system_time: 0, size: 0, is_phantom: true }
    }

    /// A copy of this record.
    pub fn duplicate(&self) -> (copy: PathData)
        ensures
            copy@ == self@,
    {
        PathData {
            path_buf: copy_bytes(&self.path_buf),
            system_time: self.system_time,
            size: self.size,
            is_phantom: self.is_phantom,
        }
    }
}

/// One line of the mount inventory: the name of a filesystem and the
/// place where it is mounted.
#[derive(Clone, Debug, PartialEq, Eq)]
pub struct FilesystemAndMount {
    pub filesystem: Vec<u8>,
    pub mount: Vec<u8>,
}

/// A `FilesystemAndMount` as a plain value.
pub struct MountView {
    pub filesystem: Seq<u8>,
    pub mount: Seq<u8>,
}

impl View for FilesystemAndMount {
    type V = MountView;

    open spec fn view(&self) -> MountView {
        MountView { filesystem: self.filesystem@, mount: self.mount@ }
    }
}

impl FilesystemAndMount {
    /// A copy of this line.
    pub fn duplicate(&self) -> (copy: FilesystemAndMount)
        ensures
            copy@ == self@,
    {
        FilesystemAndMount {
            filesystem: copy_bytes(&self.filesystem),
            mount: copy_bytes(&self.mount),
        }
    }
}

/// The two directories that an operator names by hand: where the
/// snapshots are, and the live directory that they are snapshots of.
#[derive(Clone, Debug, PartialEq, Eq)]
pub struct UserDefinedDirs {
    pub snap_dir: Vec<u8>,
    pub local_dir: Vec<u8>,
}

/// A `UserDefinedDirs` as a plain value.
pub struct UserDefinedDirsView {
    pub snap_dir: Seq<u8>,
    pub local_dir: Seq<u8>,
}

impl View for UserDefinedDirs {
    type V = UserDefinedDirsView;

    open spec fn view(&self) -> UserDefinedDirsView {
        UserDefinedDirsView { snap_dir: self.snap_dir@, local_dir: self.local_dir@ }
    }
}

/// How the datasets are laid out: found in the mount inventory, or named
/// by the operator.
#[derive(Clone, Debug, PartialEq, Eq)]
pub enum SnapPoint {
    Native(Vec<FilesystemAndMount>),
    UserDefined(UserDefinedDirs),
}

/// A `SnapPoint` as a plain value.
pub enum SnapPointView {
    Native(Seq<MountView>),
    UserDefined(UserDefinedDirsView),
}

/// The lines of `mounts` as plain values.
pub open spec fn mount_views(mounts: Seq<FilesystemAndMount>) -> Seq<MountView> {
    mounts.map_values(|line: FilesystemAndMount| line@)
}

/// The records of `records` as plain values.
pub open spec fn record_views(records: Seq<PathData>) -> Seq<PathDataView> {
    records.map_values(|record: PathData| record@)
}

impl View for SnapPoint {
    type V = SnapPointView;

    open spec fn view(&self) -> SnapPointView {
        match self {
            SnapPoint::Native(mounts) => SnapPointView::Native(mount_views(mounts@)),
            SnapPoint::UserDefined(dirs) => SnapPointView::UserDefined(dirs@),
        }
    }
}

/// Copies a list of records.
pub fn duplicate_records(records: &Vec<PathData>) -> (copies: Vec<PathData>)
    ensures
        record_views(copies@) == record_views(records@),
{
    let mut copies: Vec<PathData> = Vec::new();
    let mut at: usize = 0;
    while at < records.len()
        invariant
            at <= records.len(),
            copies.len() == at,
            forall|seen: int| 0 <= seen < at ==> (#[trigger] copies@[seen])@ == records@[seen]@,
        decreases records.len() - at,
    {
        let ghost before = copies@;
        copies.push(records[at].duplicate());
        assert(forall|seen: int| 0 <= seen < before.len() ==> copies@[seen] == before[seen]);
        at = at + 1;
    }
    assert(record_views(copies@) =~= record_views(records@));
    copies
}

impl SnapPoint {
    /// A copy of this layout.
    pub fn duplicate(&self) -> (copy: SnapPoint)
        ensures
            copy@ == self@,
    {
        match self {
            SnapPoint::Native(mounts) => {
                let mut copies: Vec<FilesystemAndMount> = Vec::new();
                let mut at: usize = 0;
                while at < mounts.len()
                    invariant
                        at <= mounts.len(),
                        copies.len() == at,
                        forall|seen: int|
                            0 <= seen < at ==> (#[trigger] copies@[seen])@ == mounts@[seen]@,
                    decreases mounts.len() - at,
                {
                    let ghost before = copies@;
                    copies.push(mounts[at].duplicate());
                    assert(forall|seen: int|
                        0 <= seen < before.len() ==> copies@[seen] == before[seen]);
                    at = at + 1;
                }
                assert(mount_views(copies@) =~= mount_views(mounts@));
                SnapPoint::Native(copies)
            },
            SnapPoint::UserDefined(dirs) => SnapPoint::UserDefined(
                UserDefinedDirs {
                    snap_dir: copy_bytes(&dirs.snap_dir),
                    local_dir: copy_bytes(&dirs.local_dir),
                },
            ),
        }
    }
}

/// Why a request failed.
#[derive(Clone, Copy, Debug, PartialEq, Eq, Structural)]
pub enum HttmError {
    /// No mount point is a prefix of the parent of the path.
    NoQualifyingDataset,
    /// The mount inventory does not hold the immediate mount point.
    NoImmediateDataset,
    /// No filesystem replicates the immediate one.
    NoAltReplicatedMount,
    /// The path is not below the directory that it should be below.
    WrongWorkingDirectory,
    /// Neither a live copy nor a snapshot copy of any requested path exists.
    NothingEverExisted,
    /// None of the chosen paths has a snapshot to select or restore from.
    NoSnapshotsForPaths,
    /// No snapshot holds a last version of the requested file.
    NoLastSnapshot,
    /// The snapshot version to restore from is not on disk.
    SourceMissing,
    /// No chosen live path has the snapshot version among its versions.
    NoOriginalPath,
    /// A file with the name of the restored file is there already.
    DestinationExists,
}

impl HttmError {
    /// What the user is told of this error.
    pub open spec fn message_text(self) -> Seq<char> {
        match self {
            HttmError::NoQualifyingDataset => "Could not identify any qualifying dataset.  Maybe consider specifying manually at SNAP_POINT?"@,
            HttmError::NoImmediateDataset => "httm was unable to detect an alternate replicated mount point.  Perhaps the replicated filesystem is not mounted?"@,
            HttmError::NoAltReplicatedMount => "httm was unable to detect an alternate replicated mount point.  Perhaps the replicated filesystem is not mounted?"@,
            HttmError::WrongWorkingDirectory => "Are you sure you're in the correct working directory?  Perhaps you need to set the SNAP_DIR and LOCAL_DIR values."@,
            HttmError::NothingEverExisted => "Neither a live copy, nor a snapshot copy of such a file appears to exist, so, umm, \u{1F937}? Please try another file."@,
            HttmError::NoSnapshotsForPaths => "Cannot select or restore from the following paths as they have no snapshots:\n"@,
            HttmError::NoLastSnapshot => "No last snapshot for the requested input file exists."@,
            HttmError::SourceMissing => "Source location does not exist on disk. Quitting."@,
            HttmError::NoOriginalPath => "httm unable to determine original file path in overwrite mode.  Quitting."@,
            HttmError::DestinationExists => "httm will not restore to that file, as a file with the same path name already exists. Quitting."@,
        }
    }

    /// What the user is told of this error.
    pub fn message(&self) -> (text: String)
        ensures
            text@ == self.message_text(),
    {
        match self {
            HttmError::NoQualifyingDataset => "Could not identify any qualifying dataset.  Maybe consider specifying manually at SNAP_POINT?".to_owned(),
            HttmError::NoImmediateDataset => "httm was unable to detect an alternate replicated mount point.  Perhaps the replicated filesystem is not mounted?".to_owned(),
            HttmError::NoAltReplicatedMount => "httm was unable to detect an alternate replicated mount point.  Perhaps the replicated filesystem is not mounted?".to_owned(),
            HttmError::WrongWorkingDirectory => "Are you sure you're in the correct working directory?  Perhaps you need to set the SNAP_DIR and LOCAL_DIR values.".to_owned(),
            HttmError::NothingEverExisted => "Neither a live copy, nor a snapshot copy of such a file appears to exist, so, umm, \u{1F937}? Please try another file.".to_owned(),
            HttmError::NoSnapshotsForPaths => "Cannot select or restore from the following paths as they have no snapshots:\n".to_owned(),
            HttmError::NoLastSnapshot => "No last snapshot for the requested input file exists.".to_owned(),
            HttmError::SourceMissing => "Source location does not exist on disk. Quitting.".to_owned(),
            HttmError::NoOriginalPath => "httm unable to determine original file path in overwrite mode.  Quitting.".to_owned(),
            HttmError::DestinationExists => "httm will not restore to that file, as a file with the same path name already exists. Quitting.".to_owned(),
        }
    }
}

/// What an interactive session is for.
#[derive(Clone, Copy, Debug, PartialEq, Eq, Structural)]
pub enum InteractiveMode {
    Browse,
    Select,
    Restore,
}

/// What a run does.
#[derive(Clone, Copy, Debug, PartialEq, Eq, Structural)]
pub enum ExecMode {
    Interactive(InteractiveMode),
    DisplayRecursive,
    Display,
    LastSnap,
}

/// Which deleted files a run looks for.
#[derive(Clone, Copy, Debug, PartialEq, Eq, Structural)]
pub enum DeletedMode {
    DepthOfOne,
    Enabled,
    Only,
}

/// Which last snapshot a run asks for.
#[derive(Clone, Copy, Debug, PartialEq, Eq, Structural)]
pub enum LastSnapMode {
    Any,
    DittoOnly,
    NoDittoExclusive,
    NoDittoInclusive,
}

/// The options of one run. The library reads `opt_alt_replicated`,
/// `opt_no_live_vers` and `snap_point`; what it does in an interactive
/// session also depends on `opt_requested_dir`, `paths`, `opt_last_snap`,
/// `opt_omit_ditto`, `opt_overwrite`, `opt_raw` and `opt_zeros`.
#[derive(Clone, Debug, PartialEq, Eq)]
pub struct Config {
    pub paths: Vec<PathData>,
    pub opt_raw: bool,
    pub opt_zeros: bool,
    pub opt_no_pretty: bool,
    pub opt_recursive: bool,
    pub opt_no_live_vers: bool,
    pub opt_exact: bool,
    pub opt_overwrite: bool,
    pub opt_no_filter: bool,
    pub opt_no_snap: bool,
    pub opt_debug: bool,
    pub opt_no_traverse: bool,
    pub opt_omit_ditto: bool,
    pub opt_alt_replicated: bool,
    pub opt_last_snap: Option<LastSnapMode>,
    pub opt_preview: Option<Vec<u8>>,
    pub requested_utc_offset: i32,
    pub exec_mode: ExecMode,
    pub deleted_mode: Option<DeletedMode>,
    pub snap_point: SnapPoint,
    pub pwd: PathData,
    pub opt_requested_dir: Option<PathData>,
}

} // verus!
