use httm::deleted::{get_deleted_per_dataset, get_unique_deleted};
use httm::{FileKind, PathAndMaybeFileType};

fn bytes(text: &str) -> Vec<u8> {
    text.as_bytes().to_vec()
}

fn entry(path: &str) -> PathAndMaybeFileType {
    PathAndMaybeFileType { path: bytes(path), file_type: Some(FileKind::Regular) }
}

fn directory(path: &str) -> PathAndMaybeFileType {
    PathAndMaybeFileType { path: bytes(path), file_type: Some(FileKind::Directory) }
}

#[test]
fn a_file_that_only_a_snapshot_holds_is_deleted() {
    let local = vec![entry("/home/a.txt")];
    let snaps = vec![
        entry("/.zfs/snapshot/s1/home/a.txt"),
        entry("/.zfs/snapshot/s1/home/b.txt"),
        entry("/.zfs/snapshot/s2/home/a.txt"),
    ];
    assert_eq!(get_deleted_per_dataset(&local, &snaps), vec![entry("/.zfs/snapshot/s1/home/b.txt")]);
}

#[test]
fn a_live_file_is_not_deleted() {
    let local = vec![entry("/home/a.txt"), directory("/home/docs")];
    let snaps = vec![entry("/.zfs/snapshot/s1/home/a.txt"), directory("/.zfs/snapshot/s1/home/docs")];
    assert_eq!(get_deleted_per_dataset(&local, &snaps), Vec::new());
}

#[test]
fn a_deleted_file_is_listed_once() {
    let snaps = vec![
        entry("/.zfs/snapshot/s1/home/b.txt"),
        entry("/.zfs/snapshot/s2/home/b.txt"),
        entry("/.zfs/snapshot/s3/home/b.txt"),
    ];
    assert_eq!(get_deleted_per_dataset(&Vec::new(), &snaps), vec![entry("/.zfs/snapshot/s3/home/b.txt")]);
}

#[test]
fn deleted_files_are_told_apart_by_their_whole_name() {
    let local = vec![entry("/home/a.txt")];
    let snaps = vec![
        entry("/.zfs/snapshot/s1/home/a.txt.bak"),
        entry("/.zfs/snapshot/s1/home/a"),
        directory("/.zfs/snapshot/s1/home/old"),
    ];
    let deleted = get_deleted_per_dataset(&local, &snaps);
    assert_eq!(deleted, snaps);
}

#[test]
fn nothing_is_deleted_without_snapshots() {
    assert_eq!(get_deleted_per_dataset(&vec![entry("/home/a.txt")], &Vec::new()), Vec::new());
    assert_eq!(get_deleted_per_dataset(&Vec::new(), &Vec::new()), Vec::new());
}

#[test]
fn an_entry_without_a_file_name_stands_for_nothing() {
    let snaps = vec![entry("/"), entry("/.zfs/snapshot/s1/home/.."), entry("/.zfs/snapshot/s1/home/b.txt")];
    assert_eq!(get_deleted_per_dataset(&Vec::new(), &snaps), vec![entry("/.zfs/snapshot/s1/home/b.txt")]);
}

#[test]
fn many_deleted_files_are_each_listed_once() {
    let mut local = Vec::new();
    let mut snaps = Vec::new();
    for file in 0..300 {
        if file % 3 == 0 {
            local.push(entry(&format!("/home/f{}", file)));
        }
        for snapshot in 0..3 {
            snaps.push(entry(&format!("/.zfs/snapshot/s{}/home/f{}", snapshot, file)));
        }
    }
    let deleted = get_deleted_per_dataset(&local, &snaps);
    assert_eq!(deleted.len(), 200);
    for found in &deleted {
        assert!(found.path.starts_with(b"/.zfs/snapshot/s2/home/f"));
    }
}

#[test]
fn the_entry_that_was_modified_last_stands_for_a_name() {
    let items = vec![
        (Some(100), entry("/.zfs/snapshot/s1/home/b.txt")),
        (Some(200), entry("/mnt/backup/.zfs/snapshot/s1/home/b.txt")),
    ];
    assert_eq!(get_unique_deleted(&items), vec![entry("/mnt/backup/.zfs/snapshot/s1/home/b.txt")]);
    let items = vec![
        (Some(200), entry("/mnt/backup/.zfs/snapshot/s1/home/b.txt")),
        (Some(100), entry("/.zfs/snapshot/s1/home/b.txt")),
    ];
    assert_eq!(get_unique_deleted(&items), vec![entry("/mnt/backup/.zfs/snapshot/s1/home/b.txt")]);
}

#[test]
fn entries_of_one_name_need_not_be_neighbours() {
    let items = vec![
        (Some(100), entry("/.zfs/snapshot/s1/home/b.txt")),
        (Some(150), entry("/.zfs/snapshot/s1/home/c.txt")),
        (Some(200), entry("/mnt/backup/.zfs/snapshot/s1/home/b.txt")),
        (Some(50), entry("/mnt/backup/.zfs/snapshot/s1/home/c.txt")),
    ];
    assert_eq!(
        get_unique_deleted(&items),
        vec![entry("/.zfs/snapshot/s1/home/c.txt"), entry("/mnt/backup/.zfs/snapshot/s1/home/b.txt")]
    );
}

#[test]
fn of_entries_modified_at_one_time_the_last_stands() {
    let items = vec![
        (Some(100), entry("/a/.zfs/snapshot/s1/b.txt")),
        (Some(100), entry("/b/.zfs/snapshot/s1/b.txt")),
        (Some(99), entry("/c/.zfs/snapshot/s1/b.txt")),
    ];
    assert_eq!(get_unique_deleted(&items), vec![entry("/b/.zfs/snapshot/s1/b.txt")]);
}

#[test]
fn entries_without_a_time_or_a_name_are_dropped() {
    let items = vec![
        (None, entry("/.zfs/snapshot/s1/home/gone.txt")),
        (Some(100), entry("/")),
        (Some(100), entry("/.zfs/snapshot/s1/home/..")),
        (Some(100), entry("/.zfs/snapshot/s1/home/b.txt")),
        (None, entry("/mnt/backup/.zfs/snapshot/s1/home/b.txt")),
    ];
    assert_eq!(get_unique_deleted(&items), vec![entry("/.zfs/snapshot/s1/home/b.txt")]);
    assert_eq!(get_unique_deleted(&Vec::new()), Vec::new());
}

#[test]
fn entries_are_copied_with_their_kind() {
    let found = directory("/.zfs/snapshot/s1/home/old");
    assert_eq!(found.duplicate(), found);
    let unread = PathAndMaybeFileType { path: bytes("/.zfs/snapshot/s1/home/x"), file_type: None };
    assert_eq!(get_unique_deleted(&vec![(Some(1), unread.clone())]), vec![unread]);
}

#[test]
fn neighbours_of_one_name_are_one_deleted_file() {
    let items = vec![
        (Some(3), entry("/a/.zfs/snapshot/s1/x")),
        (Some(9), entry("/b/.zfs/snapshot/s1/x")),
        (Some(5), entry("/c/.zfs/snapshot/s1/x")),
        (Some(1), entry("/a/.zfs/snapshot/s1/y")),
        (None, entry("/b/.zfs/snapshot/s1/y")),
        (Some(2), entry("/c/.zfs/snapshot/s1/y")),
        (Some(7), entry("/d/.zfs/snapshot/s1/x")),
    ];
    assert_eq!(
        get_unique_deleted(&items),
        vec![entry("/b/.zfs/snapshot/s1/x"), entry("/c/.zfs/snapshot/s1/y")]
    );
}

#[test]
fn many_scattered_entries_are_merged_by_name() {
    let mut items = Vec::new();
    for dataset in 0..4i128 {
        for file in 0..100i128 {
            let time = (file * 31 + dataset * 17) % 50;
            items.push((Some(time), entry(&format!("/d{}/.zfs/snapshot/s1/f{}", dataset, file))));
            items.push((Some(time - 1), entry(&format!("/e{}/.zfs/snapshot/s1/f{}", dataset, file))));
        }
    }
    let unique = get_unique_deleted(&items);
    assert_eq!(unique.len(), 100);
    for found in &unique {
        let name = found.path.rsplit(|byte| *byte == b'/').next().unwrap().to_vec();
        let best = items
            .iter()
            .enumerate()
            .filter(|(_, item)| item.1.path.ends_with(&[b"/".to_vec(), name.clone()].concat()))
            .max_by_key(|(at, item)| (item.0.unwrap(), *at))
            .unwrap();
        assert_eq!(found, &best.1 .1);
    }
}
