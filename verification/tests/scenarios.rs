use httm::deleted::{get_deleted_per_dataset, get_unique_deleted};
use httm::lookup::{candidate_paths, get_all_search_dirs, get_immediate_dataset, get_search_dirs_of_path, lookup_exec};
use httm::path::{file_name, join, split_components};
use httm::{
    Config, ExecMode, FileKind, FilesystemAndMount, HttmError, PathAndMaybeFileType, PathData,
    SnapPoint,
};
use std::collections::BTreeMap;
use std::path::Path;

fn bytes(text: &str) -> Vec<u8> {
    text.as_bytes().to_vec()
}

/// A disk for the tests: each file with its modification time and size.
struct Disk {
    files: BTreeMap<Vec<u8>, (i128, u64)>,
}

impl Disk {
    fn new(files: &[(&str, i128, u64)]) -> Disk {
        Disk { files: files.iter().map(|(path, time, size)| (bytes(path), (*time, *size))).collect() }
    }

    fn normal(path: &[u8]) -> Vec<u8> {
        let parts = split_components(&path.to_vec());
        parts.iter().skip(1).fold(bytes("/"), |whole, part| join(&whole, part))
    }

    fn stat(&self, path: &[u8]) -> PathData {
        match self.files.get(&Disk::normal(path)) {
            Some((time, size)) => PathData::new(path.to_vec(), *time, *size),
            None => PathData::phantom(path.to_vec()),
        }
    }

    fn read_dir(&self, directory: &[u8]) -> Vec<Vec<u8>> {
        let inside = split_components(&directory.to_vec());
        let mut names: Vec<Vec<u8>> = Vec::new();
        for path in self.files.keys() {
            let parts = split_components(path);
            if parts.len() > inside.len() && parts[..inside.len()] == inside[..] {
                let entry = join(&directory.to_vec(), &parts[inside.len()]);
                if !names.contains(&entry) {
                    names.push(entry);
                }
            }
        }
        names
    }

    fn entries(&self, directory: &[u8]) -> Vec<PathAndMaybeFileType> {
        self.read_dir(directory)
            .into_iter()
            .map(|path| PathAndMaybeFileType { path, file_type: Some(FileKind::Regular) })
            .collect()
    }

    fn lookup(&self, config: &Config, paths: &[&str]) -> Result<[Vec<PathData>; 2], HttmError> {
        let path_data: Vec<PathData> = paths.iter().map(|path| self.stat(path.as_bytes())).collect();
        let plans = get_all_search_dirs(config, &path_data)?;
        let candidates: Vec<Vec<PathData>> = plans
            .iter()
            .map(|plan| {
                candidate_paths(plan, &self.read_dir(&plan.hidden_snapshot_dir))
                    .iter()
                    .map(|candidate| self.stat(candidate))
                    .collect()
            })
            .collect();
        lookup_exec(config, &path_data, candidates)
    }

    fn deleted(&self, config: &Config, requested_dir: &str) -> Result<Vec<PathAndMaybeFileType>, HttmError> {
        let plans = get_search_dirs_of_path(config, &self.stat(requested_dir.as_bytes()))?;
        let mut items = Vec::new();
        for plan in &plans {
            let mut snapshot_entries = Vec::new();
            for directory in candidate_paths(plan, &self.read_dir(&plan.hidden_snapshot_dir)) {
                snapshot_entries.extend(self.entries(&directory));
            }
            for entry in get_deleted_per_dataset(&self.entries(requested_dir.as_bytes()), &snapshot_entries) {
                let found = self.stat(&entry.path);
                items.push((if found.is_phantom { None } else { Some(found.system_time) }, entry));
            }
        }
        Ok(get_unique_deleted(&items))
    }
}

fn config(mounts: &[(&str, &str)], opt_alt_replicated: bool) -> Config {
    Config {
        paths: Vec::new(),
        opt_raw: false,
        opt_zeros: false,
        opt_no_pretty: false,
        opt_recursive: false,
        opt_no_live_vers: false,
        opt_exact: false,
        opt_overwrite: false,
        opt_no_filter: false,
        opt_no_snap: false,
        opt_debug: false,
        opt_no_traverse: false,
        opt_omit_ditto: false,
        opt_alt_replicated,
        opt_last_snap: None,
        opt_preview: None,
        requested_utc_offset: 0,
        exec_mode: ExecMode::Display,
        deleted_mode: None,
        snap_point: SnapPoint::Native(
            mounts
                .iter()
                .map(|(filesystem, mount)| FilesystemAndMount { filesystem: bytes(filesystem), mount: bytes(mount) })
                .collect(),
        ),
        pwd: PathData::new(bytes("/"), 0, 0),
        opt_requested_dir: None,
    }
}

fn paths_of(records: &[PathData]) -> Vec<Vec<u8>> {
    records.iter().map(|record| record.path_buf.clone()).collect()
}

#[test]
fn two_snapshots_with_distinct_versions() {
    let disk = Disk::new(&[
        ("/home/a.txt", 300, 3),
        ("/.zfs/snapshot/s2/home/a.txt", 200, 2),
        ("/.zfs/snapshot/s1/home/a.txt", 100, 1),
    ]);
    let found = disk.lookup(&config(&[("tank", "/")], false), &["/home/a.txt"]).unwrap();
    assert_eq!(
        found[0],
        vec![
            PathData::new(bytes("/.zfs/snapshot/s1/home/a.txt"), 100, 1),
            PathData::new(bytes("/.zfs/snapshot/s2/home/a.txt"), 200, 2),
        ]
    );
    assert_eq!(found[1], vec![PathData::new(bytes("/home/a.txt"), 300, 3)]);
}

#[test]
fn two_snapshots_with_one_version() {
    let disk = Disk::new(&[
        ("/home/a.txt", 100, 1),
        ("/.zfs/snapshot/s1/home/a.txt", 100, 1),
        ("/.zfs/snapshot/s2/home/a.txt", 100, 1),
    ]);
    let found = disk.lookup(&config(&[("tank", "/")], false), &["/home/a.txt"]).unwrap();
    assert_eq!(found[0].len(), 1);
    assert_eq!((found[0][0].system_time, found[0][0].size), (100, 1));
}

#[test]
fn a_live_file_without_snapshots() {
    let disk = Disk::new(&[("/home/a.txt", 300, 3), ("/.zfs/snapshot/s1/home/other.txt", 100, 1)]);
    let found = disk.lookup(&config(&[("tank", "/")], false), &["/home/a.txt"]).unwrap();
    assert_eq!(found[0], Vec::new());
    assert_eq!(paths_of(&found[1]), vec![bytes("/home/a.txt")]);
}

#[test]
fn a_file_that_never_existed() {
    let disk = Disk::new(&[("/home/a.txt", 300, 3), ("/.zfs/snapshot/s1/home/a.txt", 100, 1)]);
    assert_eq!(
        disk.lookup(&config(&[("tank", "/")], false), &["/nonexistent/x"]),
        Err(HttmError::NothingEverExisted)
    );
}

#[test]
fn replicated_datasets_are_probed_too() {
    let disk = Disk::new(&[
        ("/etc/hostname", 300, 3),
        ("/.zfs/snapshot/s1/etc/hostname", 100, 1),
        ("/mnt/backup/.zfs/snapshot/s1/etc/hostname", 100, 1),
        ("/mnt/backup/.zfs/snapshot/s0/etc/hostname", 50, 1),
    ]);
    let mounts = [("rpool", "/"), ("tank/rpool", "/mnt/backup")];
    let found = disk.lookup(&config(&mounts, true), &["/etc/hostname"]).unwrap();
    assert_eq!(
        paths_of(&found[0]),
        vec![
            bytes("/mnt/backup/.zfs/snapshot/s0/etc/hostname"),
            bytes("/mnt/backup/.zfs/snapshot/s1/etc/hostname"),
            bytes("/.zfs/snapshot/s1/etc/hostname"),
        ]
    );
    let found = disk.lookup(&config(&mounts, false), &["/etc/hostname"]).unwrap();
    assert_eq!(paths_of(&found[0]), vec![bytes("/.zfs/snapshot/s1/etc/hostname")]);
}

#[test]
fn a_file_of_a_nested_dataset_is_found_in_its_own_snapshots() {
    let disk = Disk::new(&[
        ("/home/user/a.txt", 300, 3),
        ("/home/.zfs/snapshot/s1/user/a.txt", 100, 1),
        ("/.zfs/snapshot/s1/home/user/a.txt", 50, 1),
    ]);
    let mounts = [("rpool", "/"), ("rpool/home", "/home")];
    let found = disk.lookup(&config(&mounts, false), &["/home/user/a.txt"]).unwrap();
    assert_eq!(paths_of(&found[0]), vec![bytes("/home/.zfs/snapshot/s1/user/a.txt")]);
}

#[test]
fn a_deleted_file_is_found_in_the_snapshot_that_holds_it() {
    let disk = Disk::new(&[
        ("/home/a.txt", 300, 3),
        ("/home/.zfs/snapshot/s1/a.txt", 100, 1),
        ("/home/.zfs/snapshot/s1/b.txt", 100, 1),
        ("/home/.zfs/snapshot/s2/a.txt", 200, 1),
    ]);
    let mounts = [("rpool", "/"), ("rpool/home", "/home")];
    let deleted = disk.deleted(&config(&mounts, false), "/home/").unwrap();
    assert_eq!(deleted.len(), 0);
    let disk = Disk::new(&[
        ("/home/a.txt", 300, 3),
        ("/.zfs/snapshot/s1/home/a.txt", 100, 1),
        ("/.zfs/snapshot/s1/home/b.txt", 100, 1),
        ("/.zfs/snapshot/s2/home/a.txt", 200, 1),
    ]);
    let deleted = disk.deleted(&config(&[("rpool", "/")], false), "/home").unwrap();
    let names: Vec<Option<Vec<u8>>> = deleted.iter().map(|entry| file_name(&entry.path)).collect();
    assert_eq!(names, vec![Some(bytes("b.txt"))]);
}

#[test]
fn the_latest_evidence_of_a_deleted_file_wins_across_datasets() {
    let disk = Disk::new(&[
        ("/home/a.txt", 300, 3),
        ("/.zfs/snapshot/s1/home/b.txt", 100, 1),
        ("/mnt/backup/.zfs/snapshot/s1/home/b.txt", 200, 1),
    ]);
    let mounts = [("rpool", "/"), ("tank/rpool", "/mnt/backup")];
    let deleted = disk.deleted(&config(&mounts, true), "/home").unwrap();
    assert_eq!(
        deleted,
        vec![PathAndMaybeFileType {
            path: bytes("/mnt/backup/.zfs/snapshot/s1/home/b.txt"),
            file_type: Some(FileKind::Regular)
        }]
    );
}

#[test]
fn the_owning_dataset_is_found_as_the_standard_library_finds_it() {
    let samples = [
        "", "/", "//", ".", "./", "..", "/usr", "/usr/", "/usr/bin", "/usr//bin/", "/usr/./bin", "/usrbin",
        "usr/bin", "./usr/bin", "/home/a.txt", "/home/..", "a", "a/b/c", "/a/b/c",
    ];
    for path in samples {
        for mount in samples {
            let parent = Path::new(path).parent().unwrap_or_else(|| Path::new("/"));
            let expected = if parent.starts_with(mount) { Ok(bytes(mount)) } else { Err(HttmError::NoQualifyingDataset) };
            let mounts = vec![FilesystemAndMount { filesystem: bytes("tank"), mount: bytes(mount) }];
            assert_eq!(
                get_immediate_dataset(&PathData::new(bytes(path), 1, 1), &mounts),
                expected,
                "the dataset of {:?} among {:?}",
                path,
                mount
            );
        }
    }
}
