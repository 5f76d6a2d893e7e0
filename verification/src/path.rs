//! Path arithmetic on byte strings.
//!
//! A path is read as a sequence of components. An absolute path has the
//! root as its first component, a relative path that begins with a `.`
//! segment keeps that segment, and every other component is a segment
//! between separators that is neither empty nor `.`. Two paths are compared
//! component by component, never byte by byte.

use vstd::prelude::*;
use crate::bytes::{append_bytes, byte_views, bytes_equal, copy_bytes, pieces, split_on};

verus! {

/// The byte that separates the components of a path.
pub const SEPARATOR: u8 = 47;

/// The byte of which the segments `.` and `..` are made.
pub const DOT: u8 = 46;

/// The component that stands for the root of an absolute path.
pub open spec fn root_component() -> Seq<u8> {
    seq![SEPARATOR]
}

/// The component `.`.
pub open spec fn current_component() -> Seq<u8> {
    seq![DOT]
}

/// The component `..`.
pub open spec fn parent_component() -> Seq<u8> {
    seq![DOT, DOT]
}

/// The pieces of `path` between its separators, empty pieces included.
pub open spec fn segments(path: Seq<u8>) -> Seq<Seq<u8>> {
    pieces(path, SEPARATOR)
}

/// A segment that names something: it is neither empty nor `.`.
pub open spec fn is_named(segment: Seq<u8>) -> bool {
    segment.len() > 0 && segment != current_component()
}

/// `is_named` as a predicate that can be handed to `Seq::filter`.
pub open spec fn named() -> spec_fn(Seq<u8>) -> bool {
    |segment: Seq<u8>| is_named(segment)
}

/// The component that the first bytes of `path` decide: the root of an
/// absolute path, or the `.` that a relative path begins with.
pub open spec fn leading(path: Seq<u8>) -> Seq<Seq<u8>> {
    if path.len() > 0 && path[0] == SEPARATOR {
        seq![root_component()]
    } else if path.len() > 0 && path[0] == DOT && (path.len() == 1 || path[1] == SEPARATOR) {
        seq![current_component()]
    } else {
        Seq::<Seq<u8>>::empty()
    }
}

/// The components of `path`.
pub open spec fn components(path: Seq<u8>) -> Seq<Seq<u8>> {
    leading(path) + segments(path).filter(named())
}

/// Filtering by `named` after one more segment was pushed.
pub proof fn lemma_named_push(pieces: Seq<Seq<u8>>, piece: Seq<u8>)
    ensures
        pieces.push(piece).filter(named()) == if is_named(piece) {
            pieces.filter(named()).push(piece)
        } else {
            pieces.filter(named())
        },
        Seq::<Seq<u8>>::empty().filter(named()) == Seq::<Seq<u8>>::empty(),
{
    reveal(Seq::filter);
    assert(pieces.push(piece).drop_last() =~= pieces);
}

/// Whether a segment that has been read names something.
fn segment_is_named(segment: &Vec<u8>) -> (yes: bool)
    ensures
        yes == is_named(segment@),
{
    if segment.len() == 0 {
        false
    } else if segment.len() == 1 && segment[0] == DOT {
        assert(segment@ =~= current_component());
        false
    } else {
        if segment.len() == 1 {
            assert(segment@[0] != current_component()[0]);
        }
        true
    }
}

/// Splits `path` into its components.
pub fn split_components(path: &Vec<u8>) -> (parts: Vec<Vec<u8>>)
    ensures
        byte_views(parts@) == components(path@),
{
    let mut parts: Vec<Vec<u8>> = Vec::new();
    if path.len() > 0 && path[0] == SEPARATOR {
        let mut root: Vec<u8> = Vec::new();
        root.push(SEPARATOR);
        assert(root@ =~= root_component());
        parts.push(root);
    } else if path.len() > 0 && path[0] == DOT && (path.len() == 1 || path[1] == SEPARATOR) {
        let mut current: Vec<u8> = Vec::new();
        current.push(DOT);
        assert(current@ =~= current_component());
        parts.push(current);
    }
    let between = split_on(path, SEPARATOR);
    let ghost all = byte_views(between@);
    proof {
        lemma_named_push(Seq::empty(), Seq::empty());
        assert(all.take(0) =~= Seq::<Seq<u8>>::empty());
        assert(byte_views(parts@) =~= leading(path@) + all.take(0).filter(named()));
    }
    for segment in each: between
        invariant
            all == byte_views(each.seq()),
            all == segments(path@),
            byte_views(parts@) == leading(path@) + all.take(each.index() as int).filter(named()),
    {
        let ghost seen = each.index() as int;
        let ghost earlier = parts@;
        proof {
            assert(all.take(seen + 1) =~= all.take(seen).push(segment@));
            lemma_named_push(all.take(seen), segment@);
        }
        if segment_is_named(&segment) {
            parts.push(segment);
            assert(byte_views(parts@) =~= byte_views(earlier).push(segment@));
        }
    }
    assert(all.take(all.len() as int) =~= all);
    parts
}

/// Whether the components `prefix` are the first components of `whole`.
pub fn has_prefix(whole: &Vec<Vec<u8>>, prefix: &Vec<Vec<u8>>) -> (yes: bool)
    ensures
        yes == byte_views(prefix@).is_prefix_of(byte_views(whole@)),
{
    if prefix.len() > whole.len() {
        return false;
    }
    let mut at: usize = 0;
    while at < prefix.len()
        invariant
            at <= prefix.len(),
            prefix.len() <= whole.len(),
            forall|k: int| 0 <= k < at ==> prefix@[k]@ == whole@[k]@,
        decreases prefix.len() - at,
    {
        if !bytes_equal(&prefix[at], &whole[at]) {
            assert(byte_views(whole@).subrange(0, prefix@.len() as int)[at as int] == whole@[at as int]@);
            assert(byte_views(prefix@)[at as int] == prefix@[at as int]@);
            return false;
        }
        at = at + 1;
    }
    assert(byte_views(prefix@) =~= byte_views(whole@).subrange(0, prefix@.len() as int));
    true
}

/// Whether `path` begins with all the components of `base`.
pub open spec fn path_starts_with(path: Seq<u8>, base: Seq<u8>) -> bool {
    components(base).is_prefix_of(components(path))
}

/// Whether `path` begins with all the components of `base`: `/usr` is a
/// prefix of `/usr/bin` and not of `/usrbin`.
pub fn starts_with(path: &Vec<u8>, base: &Vec<u8>) -> (yes: bool)
    ensures
        yes == path_starts_with(path@, base@),
{
    let whole = split_components(path);
    let prefix = split_components(base);
    has_prefix(&whole, &prefix)
}

/// The bytes of the path that is made of `parts`: the components with one
/// separator between two of them, and none after the root.
pub open spec fn joined_components(parts: Seq<Seq<u8>>) -> Seq<u8>
    decreases parts.len(),
{
    if parts.len() == 0 {
        Seq::<u8>::empty()
    } else if parts.len() == 1 {
        parts[0]
    } else if parts.len() == 2 && parts[0] == root_component() {
        parts[0] + parts[1]
    } else {
        joined_components(parts.drop_last()) + seq![SEPARATOR] + parts.last()
    }
}

/// Writes the components of `parts` from position `from` on as one path.
pub fn render_components(parts: &Vec<Vec<u8>>, from: usize) -> (rendered: Vec<u8>)
    requires
        from <= parts.len(),
    ensures
        rendered@ == joined_components(byte_views(parts@).skip(from as int)),
{
    let mut rendered: Vec<u8> = Vec::new();
    let mut at: usize = from;
    let ghost all = byte_views(parts@);
    assert(all.subrange(from as int, from as int) =~= Seq::<Seq<u8>>::empty());
    while at < parts.len()
        invariant
            from <= at <= parts.len(),
            all == byte_views(parts@),
            rendered@ == joined_components(all.subrange(from as int, at as int)),
        decreases parts.len() - at,
    {
        let ghost shown = all.subrange(from as int, at as int);
        let ghost next = all.subrange(from as int, at as int + 1);
        proof {
            assert(next.drop_last() =~= shown);
            assert(next.last() == parts@[at as int]@);
        }
        if at == from {
            assert(rendered@ =~= Seq::<u8>::empty());
            append_bytes(&mut rendered, &parts[at]);
            assert(rendered@ =~= next[0]);
        } else if at == from + 1 && parts[from].len() == 1 && parts[from][0] == SEPARATOR {
            assert(next[0] =~= root_component());
            assert(shown[0] == next[0]);
            append_bytes(&mut rendered, &parts[at]);
        } else {
            if at == from + 1 {
                assert(next[0] == parts@[from as int]@);
                assert(next[0] != root_component()) by {
                    if next[0].len() == 1 {
                        assert(next[0][0] != root_component()[0]);
                    }
                }
            }
            rendered.push(SEPARATOR);
            append_bytes(&mut rendered, &parts[at]);
            assert(rendered@ =~= joined_components(shown) + seq![SEPARATOR] + next.last());
        }
        at = at + 1;
    }
    assert(all.subrange(from as int, parts.len() as int) =~= all.skip(from as int));
    rendered
}

/// What is left of `path` once the components of `base` are taken from its
/// front, or nothing where `path` does not begin with them.
pub open spec fn stripped(path: Seq<u8>, base: Seq<u8>) -> Option<Seq<u8>> {
    if path_starts_with(path, base) {
        Some(joined_components(components(path).skip(components(base).len() as int)))
    } else {
        None
    }
}

/// Removes the components of `base` from the front of `path`.
pub fn strip_prefix(path: &Vec<u8>, base: &Vec<u8>) -> (rest: Option<Vec<u8>>)
    ensures
        match rest {
            Some(tail) => stripped(path@, base@) == Some(tail@),
            None => stripped(path@, base@) is None,
        },
{
    let whole = split_components(path);
    let prefix = split_components(base);
    if has_prefix(&whole, &prefix) {
        Some(render_components(&whole, prefix.len()))
    } else {
        None
    }
}

/// `tail` appended to `base`: an absolute `tail` replaces `base`, and a
/// separator is put between the two where `base` does not end with one.
pub open spec fn joined(base: Seq<u8>, tail: Seq<u8>) -> Seq<u8> {
    if tail.len() > 0 && tail[0] == SEPARATOR {
        tail
    } else if base.len() > 0 && base.last() != SEPARATOR {
        base + seq![SEPARATOR] + tail
    } else {
        base + tail
    }
}

/// Appends the path `tail` to the path `base`.
pub fn join(base: &Vec<u8>, tail: &Vec<u8>) -> (whole: Vec<u8>)
    ensures
        whole@ == joined(base@, tail@),
{
    if tail.len() > 0 && tail[0] == SEPARATOR {
        return copy_bytes(tail);
    }
    let mut whole = copy_bytes(base);
    if base.len() > 0 && base[base.len() - 1] != SEPARATOR {
        whole.push(SEPARATOR);
    }
    append_bytes(&mut whole, tail);
    whole
}

/// The last component of `path`, where it names a file or a directory:
/// a path that ends in the root, in `.` or in `..` has no file name.
pub open spec fn file_name_of(path: Seq<u8>) -> Option<Seq<u8>> {
    let parts = components(path);
    if parts.len() > 0 && parts.last() != root_component() && parts.last() != current_component()
        && parts.last() != parent_component() {
        Some(parts.last())
    } else {
        None
    }
}

/// Whether `part` is one of the components that name no file.
fn is_special_component(part: &Vec<u8>) -> (yes: bool)
    ensures
        yes == (part@ == root_component() || part@ == current_component() || part@
            == parent_component()),
{
    if part.len() == 1 {
        if part[0] == SEPARATOR {
            assert(part@ =~= root_component());
            true
        } else if part[0] == DOT {
            assert(part@ =~= current_component());
            true
        } else {
            assert(part@[0] != root_component()[0]);
            assert(part@[0] != current_component()[0]);
            false
        }
    } else if part.len() == 2 {
        if part[0] == DOT && part[1] == DOT {
            assert(part@ =~= parent_component());
            true
        } else {
            assert(part@[0] != parent_component()[0] || part@[1] != parent_component()[1]);
            false
        }
    } else {
        false
    }
}

/// The file name of `path`.
pub fn file_name(path: &Vec<u8>) -> (name: Option<Vec<u8>>)
    ensures
        match name {
            Some(last) => file_name_of(path@) == Some(last@),
            None => file_name_of(path@) is None,
        },
{
    let parts = split_components(path);
    if parts.len() == 0 {
        return None;
    }
    let last = &parts[parts.len() - 1];
    assert(byte_views(parts@).last() == last@);
    if is_special_component(last) {
        None
    } else {
        Some(copy_bytes(last))
    }
}

} // verus!
