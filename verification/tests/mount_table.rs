use httm::bytes::split_on;
use httm::mounts::{parse_mount_line, parse_mount_table};
use httm::FilesystemAndMount;

fn bytes(text: &str) -> Vec<u8> {
    text.as_bytes().to_vec()
}

fn mount(filesystem: &str, mount: &str) -> FilesystemAndMount {
    FilesystemAndMount { filesystem: bytes(filesystem), mount: bytes(mount) }
}

#[test]
fn a_text_is_cut_at_every_separator() {
    assert_eq!(split_on(&bytes("a b  c"), b' '), vec![bytes("a"), bytes("b"), bytes(""), bytes("c")]);
    assert_eq!(split_on(&bytes(""), b' '), vec![bytes("")]);
    assert_eq!(split_on(&bytes(" "), b' '), vec![bytes(""), bytes("")]);
    assert_eq!(split_on(&bytes("one\ntwo\n"), b'\n'), vec![bytes("one"), bytes("two"), bytes("")]);
}

#[test]
fn cutting_is_that_of_the_standard_library() {
    for text in ["", "a", " ", "a b", " a b ", "a  b", "rpool /  zfs rw 0 0"] {
        let expected: Vec<Vec<u8>> = text.split(' ').map(|piece| piece.as_bytes().to_vec()).collect();
        assert_eq!(split_on(&bytes(text), b' '), expected);
    }
}

#[test]
fn a_line_of_the_searched_type_is_a_mount() {
    assert_eq!(
        parse_mount_line(&bytes("rpool/home /home zfs rw,xattr,posixacl 0 0")),
        Some(mount("rpool/home", "/home"))
    );
    assert_eq!(parse_mount_line(&bytes("rpool / zfs")), Some(mount("rpool", "/")));
}

#[test]
fn a_line_of_another_type_is_no_mount() {
    assert_eq!(parse_mount_line(&bytes("/dev/sda1 /boot ext4 rw 0 0")), None);
    assert_eq!(parse_mount_line(&bytes("proc /proc proc rw 0 0")), None);
    assert_eq!(parse_mount_line(&bytes("rpool /")), None);
    assert_eq!(parse_mount_line(&bytes("")), None);
    assert_eq!(parse_mount_line(&bytes("rpool / zfsx rw 0 0")), None);
}

#[test]
fn escaped_spaces_are_spaces() {
    assert_eq!(
        parse_mount_line(&bytes("tank/my\\040data /mnt/my\\040data\\040set zfs rw 0 0")),
        Some(mount("tank/my data", "/mnt/my data set"))
    );
}

#[test]
fn the_inventory_keeps_the_order_of_the_table() {
    let table = "rpool / zfs rw 0 0\nproc /proc proc rw 0 0\nrpool/home /home zfs rw 0 0\ntank/rpool /mnt/backup zfs ro 0 0\n";
    assert_eq!(
        parse_mount_table(&bytes(table)),
        vec![mount("rpool", "/"), mount("rpool/home", "/home"), mount("tank/rpool", "/mnt/backup")]
    );
    assert_eq!(parse_mount_table(&bytes("")), Vec::new());
    assert_eq!(parse_mount_table(&bytes("proc /proc proc rw 0 0\n")), Vec::new());
}
