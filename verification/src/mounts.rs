//! The mount inventory, read from the table of mounted filesystems.
//!
//! The table has one line for each mounted filesystem, with fields that
//! are separated by one space: the name of the filesystem, the place
//! where it is mounted, the type of the filesystem, and more that is not
//! read here. A space inside a field is written as `\040`.

use vstd::prelude::*;
use crate::bytes::{byte_views, bytes_equal, pieces, replace_all, replaced, split_on};
use crate::data::{mount_views, FilesystemAndMount, MountView};

verus! {

/// The byte that ends a line of the table.
pub const LINE_FEED: u8 = 10;

/// The byte that separates the fields of a line.
pub const SPACE: u8 = 32;

/// The name of the type of the filesystems whose snapshots are searched:
/// `zfs`.
pub open spec fn searched_type() -> Seq<u8> {
    seq![122u8, 102u8, 115u8]
}

/// How a space inside a field is written: `\040`.
pub open spec fn escaped_space() -> Seq<u8> {
    seq![92u8, 48u8, 52u8, 48u8]
}

/// A field as it was before its spaces were escaped.
pub open spec fn unescaped(field: Seq<u8>) -> Seq<u8> {
    replaced(field, escaped_space(), seq![SPACE])
}

/// The filesystem that a line of the table stands for, where the line has
/// at least three fields and the third names the searched type.
pub open spec fn mount_of_line(line: Seq<u8>) -> Option<MountView> {
    let fields = pieces(line, SPACE);
    if fields.len() >= 3 && fields[2] == searched_type() {
        Some(MountView { filesystem: unescaped(fields[0]), mount: unescaped(fields[1]) })
    } else {
        None
    }
}

/// The filesystems that `lines` stand for, in the order of the lines.
pub open spec fn mounts_of_lines(lines: Seq<Seq<u8>>) -> Seq<MountView>
    decreases lines.len(),
{
    if lines.len() == 0 {
        Seq::<MountView>::empty()
    } else {
        let before = mounts_of_lines(lines.drop_last());
        match mount_of_line(lines.last()) {
            Some(line) => before.push(line),
            None => before,
        }
    }
}

/// The mount inventory that a table of mounted filesystems holds.
pub open spec fn mounts_of_table(table: Seq<u8>) -> Seq<MountView> {
    mounts_of_lines(pieces(table, LINE_FEED))
}

/// Reads one line of the table.
pub fn parse_mount_line(line: &Vec<u8>) -> (found: Option<FilesystemAndMount>)
    ensures
        match found {
            Some(mount) => mount_of_line(line@) == Some(mount@),
            None => mount_of_line(line@) is None,
        },
{
    let fields = split_on(line, SPACE);
    let searched: Vec<u8> = vec![122u8, 102u8, 115u8];
    assert(searched@ =~= searched_type());
    if fields.len() >= 3 && bytes_equal(&fields[2], &searched) {
        let escaped: Vec<u8> = vec![92u8, 48u8, 52u8, 48u8];
        let space: Vec<u8> = vec![SPACE];
        assert(escaped@ =~= escaped_space());
        assert(space@ =~= seq![SPACE]);
        assert(byte_views(fields@)[0] == fields@[0]@);
        assert(byte_views(fields@)[1] == fields@[1]@);
        assert(byte_views(fields@)[2] == fields@[2]@);
        Some(
            FilesystemAndMount {
                filesystem: replace_all(&fields[0], &escaped, &space),
                mount: replace_all(&fields[1], &escaped, &space),
            },
        )
    } else {
        proof {
            if fields.len() >= 3 {
                assert(byte_views(fields@)[2] == fields@[2]@);
            }
        }
        None
    }
}

/// Reads the mount inventory from the table of mounted filesystems.
pub fn parse_mount_table(table: &Vec<u8>) -> (mounts: Vec<FilesystemAndMount>)
    ensures
        mount_views(mounts@) == mounts_of_table(table@),
{
    let lines = split_on(table, LINE_FEED);
    let ghost all = byte_views(lines@);
    let mut mounts: Vec<FilesystemAndMount> = Vec::new();
    let mut at: usize = 0;
    assert(all.take(0) =~= Seq::<Seq<u8>>::empty());
    assert(mount_views(mounts@) =~= mounts_of_lines(all.take(0)));
    while at < lines.len()
        invariant
            at <= lines.len(),
            all == byte_views(lines@),
            mount_views(mounts@) == mounts_of_lines(all.take(at as int)),
        decreases lines.len() - at,
    {
        let ghost earlier = mounts@;
        proof {
            assert(all.take(at as int + 1).drop_last() =~= all.take(at as int));
            assert(all.take(at as int + 1).last() == lines@[at as int]@);
        }
        match parse_mount_line(&lines[at]) {
            Some(mount) => {
                mounts.push(mount);
                assert(mount_views(mounts@) =~= mount_views(earlier).push(mount@));
            },
            None => {},
        }
        at = at + 1;
    }
    assert(all.take(lines.len() as int) =~= all);
    mounts
}

} // verus!
