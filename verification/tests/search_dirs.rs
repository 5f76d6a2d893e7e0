use httm::lookup::{
    get_all_search_dirs, get_search_dirs, get_search_dirs_of_path, hidden_snapshot_dir_name,
    selected_datasets, NativeDatasetType, SearchDirs,
};
use httm::{
    Config, ExecMode, FilesystemAndMount, HttmError, PathData, SnapPoint, UserDefinedDirs,
};

fn bytes(text: &str) -> Vec<u8> {
    text.as_bytes().to_vec()
}

fn mount(filesystem: &str, mount: &str) -> FilesystemAndMount {
    FilesystemAndMount { filesystem: bytes(filesystem), mount: bytes(mount) }
}

fn live(path: &str) -> PathData {
    PathData::new(bytes(path), 1_000, 10)
}

fn plan(hidden_snapshot_dir: &str, relative_path: &str) -> SearchDirs {
    SearchDirs { hidden_snapshot_dir: bytes(hidden_snapshot_dir), relative_path: bytes(relative_path) }
}

fn config(snap_point: SnapPoint, opt_alt_replicated: bool) -> Config {
    Config {
        paths: Vec::new(),
        opt_raw: false,
        opt_zeros: false,
        opt_no_pretty: false,
        opt_recursive: false,
        opt_no_live_vers: false,
        opt_exact: false,
        opt_overwrite: false,
        opt_no_filter: false,
        opt_no_snap: false,
        opt_debug: false,
        opt_no_traverse: false,
        opt_omit_ditto: false,
        opt_alt_replicated,
        opt_last_snap: None,
        opt_preview: None,
        requested_utc_offset: 0,
        exec_mode: ExecMode::Display,
        deleted_mode: None,
        snap_point,
        pwd: live("/"),
        opt_requested_dir: None,
    }
}

fn native(mounts: Vec<FilesystemAndMount>, opt_alt_replicated: bool) -> Config {
    config(SnapPoint::Native(mounts), opt_alt_replicated)
}

fn user_defined(snap_dir: &str, local_dir: &str) -> Config {
    config(
        SnapPoint::UserDefined(UserDefinedDirs { snap_dir: bytes(snap_dir), local_dir: bytes(local_dir) }),
        false,
    )
}

#[test]
fn snapshot_directory_has_the_fixed_name() {
    assert_eq!(hidden_snapshot_dir_name(), bytes(".zfs/snapshot"));
}

#[test]
fn selected_datasets_put_the_replicas_first() {
    assert_eq!(
        selected_datasets(&native(Vec::new(), true)),
        vec![NativeDatasetType::AltReplicated, NativeDatasetType::MostImmediate]
    );
    assert_eq!(selected_datasets(&native(Vec::new(), false)), vec![NativeDatasetType::MostImmediate]);
}

#[test]
fn most_immediate_search_looks_below_the_owning_dataset() {
    let config = native(vec![mount("tank", "/"), mount("tank/home", "/home")], false);
    assert_eq!(
        get_search_dirs(&config, &live("/home/user/a.txt"), &NativeDatasetType::MostImmediate),
        Ok(vec![plan("/home/.zfs/snapshot", "user/a.txt")])
    );
    assert_eq!(
        get_search_dirs(&config, &live("/etc/hostname"), &NativeDatasetType::MostImmediate),
        Ok(vec![plan("/.zfs/snapshot", "etc/hostname")])
    );
}

#[test]
fn search_of_the_root_has_an_empty_relative_path() {
    let config = native(vec![mount("tank", "/")], false);
    assert_eq!(
        get_search_dirs(&config, &live("/"), &NativeDatasetType::MostImmediate),
        Ok(vec![plan("/.zfs/snapshot", "")])
    );
}

#[test]
fn alt_replicated_search_keeps_the_path_below_the_immediate_mount() {
    let config = native(
        vec![mount("rpool", "/"), mount("rpool/etc", "/etc"), mount("tank/rpool/etc", "/mnt/backup/etc")],
        true,
    );
    assert_eq!(
        get_search_dirs(&config, &live("/etc/ssh/sshd_config"), &NativeDatasetType::AltReplicated),
        Ok(vec![plan("/mnt/backup/etc/.zfs/snapshot", "ssh/sshd_config")])
    );
}

#[test]
fn alt_replicated_search_probes_every_replica() {
    let config = native(
        vec![
            mount("rpool", "/"),
            mount("offsite/rpool", "/mnt/offsite"),
            mount("tank/rpool", "/mnt/b"),
        ],
        true,
    );
    assert_eq!(
        get_search_dirs(&config, &live("/etc/hostname"), &NativeDatasetType::AltReplicated),
        Ok(vec![plan("/mnt/b/.zfs/snapshot", "etc/hostname"), plan("/mnt/offsite/.zfs/snapshot", "etc/hostname")])
    );
}

#[test]
fn searches_fail_as_the_dataset_functions_do() {
    let config = native(vec![mount("tank", "/srv")], true);
    assert_eq!(
        get_search_dirs(&config, &live("/home/a.txt"), &NativeDatasetType::MostImmediate),
        Err(HttmError::NoQualifyingDataset)
    );
    assert_eq!(
        get_search_dirs(&config, &live("/home/a.txt"), &NativeDatasetType::AltReplicated),
        Err(HttmError::NoQualifyingDataset)
    );
    assert_eq!(
        get_search_dirs(&config, &live("/srv/a.txt"), &NativeDatasetType::AltReplicated),
        Err(HttmError::NoAltReplicatedMount)
    );
}

#[test]
fn a_path_without_components_is_in_the_wrong_working_directory() {
    let config = native(vec![mount("tank", "/")], false);
    assert_eq!(
        get_search_dirs(&config, &live(""), &NativeDatasetType::MostImmediate),
        Err(HttmError::WrongWorkingDirectory)
    );
}

#[test]
fn user_defined_search_strips_the_local_directory() {
    let config = user_defined("/mnt/snaps", "/home/user");
    for kind in [NativeDatasetType::MostImmediate, NativeDatasetType::AltReplicated] {
        assert_eq!(
            get_search_dirs(&config, &live("/home/user/docs/a.txt"), &kind),
            Ok(vec![plan("/mnt/snaps/.zfs/snapshot", "docs/a.txt")])
        );
    }
}

#[test]
fn user_defined_search_outside_the_local_directory_fails() {
    let config = user_defined("/mnt/snaps", "/home/user");
    assert_eq!(
        get_search_dirs(&config, &live("/srv/a.txt"), &NativeDatasetType::MostImmediate),
        Err(HttmError::WrongWorkingDirectory)
    );
    assert_eq!(
        get_search_dirs(&config, &live("/home/username/a.txt"), &NativeDatasetType::MostImmediate),
        Err(HttmError::WrongWorkingDirectory)
    );
}

#[test]
fn search_of_a_path_covers_the_selected_kinds() {
    let mounts = vec![mount("rpool", "/"), mount("tank/rpool", "/mnt/backup")];
    assert_eq!(
        get_search_dirs_of_path(&native(mounts.clone(), true), &live("/etc/hostname")),
        Ok(vec![plan("/mnt/backup/.zfs/snapshot", "etc/hostname"), plan("/.zfs/snapshot", "etc/hostname")])
    );
    assert_eq!(
        get_search_dirs_of_path(&native(mounts, false), &live("/etc/hostname")),
        Ok(vec![plan("/.zfs/snapshot", "etc/hostname")])
    );
}

#[test]
fn a_missing_replica_does_not_fail_the_search_of_a_path() {
    let mounts = vec![mount("rpool", "/"), mount("tank", "/tank")];
    assert_eq!(
        get_search_dirs_of_path(&native(mounts, true), &live("/etc/hostname")),
        Ok(vec![plan("/.zfs/snapshot", "etc/hostname")])
    );
}

#[test]
fn a_missing_dataset_fails_the_search_of_a_path() {
    let mounts = vec![mount("rpool", "/srv")];
    assert_eq!(
        get_search_dirs_of_path(&native(mounts.clone(), true), &live("/etc/hostname")),
        Err(HttmError::NoQualifyingDataset)
    );
    assert_eq!(
        get_search_dirs_of_path(&native(mounts, false), &live("/etc/hostname")),
        Err(HttmError::NoQualifyingDataset)
    );
}

#[test]
fn search_of_several_paths_keeps_their_order() {
    let config = native(vec![mount("rpool", "/"), mount("rpool/home", "/home")], false);
    assert_eq!(
        get_all_search_dirs(&config, &vec![live("/home/a.txt"), live("/etc/hostname"), live("/home/b/c")]),
        Ok(vec![
            plan("/home/.zfs/snapshot", "a.txt"),
            plan("/.zfs/snapshot", "etc/hostname"),
            plan("/home/.zfs/snapshot", "b/c"),
        ])
    );
    assert_eq!(get_all_search_dirs(&config, &Vec::new()), Ok(Vec::new()));
}

#[test]
fn search_of_several_paths_fails_with_the_first_failure() {
    let config = user_defined("/mnt/snaps", "/home/user");
    assert_eq!(
        get_all_search_dirs(&config, &vec![live("/home/user/a.txt"), live("/srv/b.txt")]),
        Err(HttmError::WrongWorkingDirectory)
    );
}
