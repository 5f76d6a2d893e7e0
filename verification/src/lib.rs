//! Snapshot resolution for copy-on-write filesystems that expose their
//! snapshots as hidden, read-only directory trees.
//!
//! Given a live path and the inventory of mounted datasets, the library works
//! out which dataset owns the path, which snapshot roots have to be searched,
//! which historical versions of the path are distinct, and which directory
//! entries exist only in snapshots. Paths are byte strings; reading
//! directories and metadata is left to the caller.

pub mod bytes;
pub mod data;
pub mod deleted;
pub mod exec;
pub mod index;
pub mod laws;
pub mod lookup;
pub mod mounts;
pub mod path;
pub mod path_laws;
pub mod runs;
pub mod sorting;

pub use crate::data::{
    Config, DeletedMode, ExecMode, FileKind, FilesystemAndMount, HttmError, InteractiveMode,
    LastSnapMode, PathAndMaybeFileType, PathData, SnapPoint, UserDefinedDirs,
};
