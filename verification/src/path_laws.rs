//! What holds of paths that are taken apart and put together again.

use vstd::prelude::*;
use crate::path::{
    components, is_named, joined, joined_components, leading, lemma_named_push, named,
    path_starts_with, segments, stripped, DOT, SEPARATOR,
};

verus! {

/// A path has at least one piece.
pub proof fn lemma_segments_not_empty(path: Seq<u8>)
    ensures
        segments(path).len() > 0,
    decreases path.len(),
{
    if path.len() > 0 {
        lemma_segments_not_empty(path.drop_last());
    }
}

/// No piece between separators holds a separator.
pub proof fn lemma_segments_hold_no_separator(path: Seq<u8>, at: int, inside: int)
    requires
        0 <= at < segments(path).len(),
        0 <= inside < segments(path)[at].len(),
    ensures
        segments(path)[at][inside] != SEPARATOR,
    decreases path.len(),
{
    if path.len() > 0 {
        let before = segments(path.drop_last());
        lemma_segments_not_empty(path.drop_last());
        if path.last() == SEPARATOR {
            lemma_segments_hold_no_separator(path.drop_last(), at, inside);
        } else if at < before.len() - 1 {
            lemma_segments_hold_no_separator(path.drop_last(), at, inside);
        } else if inside < before.last().len() {
            lemma_segments_hold_no_separator(path.drop_last(), at, inside);
        }
    }
}

/// Whether `part` can stand in the middle of a path: it is not empty, is
/// not `.`, and holds no separator.
pub open spec fn is_plain(part: Seq<u8>) -> bool {
    &&& is_named(part)
    &&& forall|inside: int| 0 <= inside < part.len() ==> part[inside] != SEPARATOR
}

/// Whether each of `parts` can stand in the middle of a path.
pub open spec fn are_plain(parts: Seq<Seq<u8>>) -> bool {
    forall|at: int| 0 <= at < parts.len() ==> is_plain(#[trigger] parts[at])
}

/// The pieces of two paths with a separator between them are the pieces
/// of the first followed by the pieces of the second.
pub proof fn lemma_segments_of_two(first: Seq<u8>, second: Seq<u8>)
    ensures
        segments(first + seq![SEPARATOR] + second) == segments(first) + segments(second),
    decreases second.len(),
{
    let whole = first + seq![SEPARATOR] + second;
    lemma_segments_not_empty(first);
    lemma_segments_not_empty(second);
    if second.len() == 0 {
        assert(whole.drop_last() =~= first);
        assert(segments(second) =~= seq![Seq::<u8>::empty()]);
        assert(segments(whole) =~= segments(first) + segments(second));
    } else {
        let shorter = second.drop_last();
        lemma_segments_of_two(first, shorter);
        lemma_segments_not_empty(shorter);
        assert(whole.drop_last() =~= first + seq![SEPARATOR] + shorter);
        assert(whole.last() == second.last());
        let before = segments(first) + segments(shorter);
        if second.last() == SEPARATOR {
            assert(segments(whole) =~= segments(first) + segments(second));
        } else {
            assert(before.last() == segments(shorter).last());
            assert(before.drop_last() =~= segments(first) + segments(shorter).drop_last());
            assert(segments(whole) =~= segments(first) + segments(second));
        }
    }
}

/// A text without a separator is its own only piece.
pub proof fn lemma_segments_of_one(part: Seq<u8>)
    requires
        forall|inside: int| 0 <= inside < part.len() ==> part[inside] != SEPARATOR,
    ensures
        segments(part) == seq![part],
    decreases part.len(),
{
    if part.len() > 0 {
        lemma_segments_of_one(part.drop_last());
        assert(segments(part) =~= seq![part]) by {
            assert(part.drop_last().push(part.last()) =~= part);
        }
    } else {
        assert(part =~= Seq::<u8>::empty());
        assert(segments(part) =~= seq![part]);
    }
}

/// The pieces of plain parts written as one path are the parts.
pub proof fn lemma_segments_of_plain_parts(parts: Seq<Seq<u8>>)
    requires
        parts.len() > 0,
        are_plain(parts),
    ensures
        segments(joined_components(parts)) == parts,
        joined_components(parts).len() >= parts[0].len(),
        joined_components(parts).take(parts[0].len() as int) == parts[0],
        joined_components(parts).len() > parts[0].len() ==> joined_components(
            parts,
        )[parts[0].len() as int] == SEPARATOR,
    decreases parts.len(),
{
    if parts.len() == 1 {
        assert(is_plain(parts[0]));
        lemma_segments_of_one(parts[0]);
        assert(segments(parts[0]) =~= parts);
        assert(parts[0].take(parts[0].len() as int) =~= parts[0]);
    } else {
        let shorter = parts.drop_last();
        assert(are_plain(shorter)) by {
            assert forall|at: int| 0 <= at < shorter.len() implies is_plain(#[trigger] shorter[at]) by {
                assert(shorter[at] == parts[at]);
            }
        }
        lemma_segments_of_plain_parts(shorter);
        assert(is_plain(parts[0]));
        assert(parts[0] != seq![SEPARATOR]) by {
            if parts[0].len() == 1 {
                assert(parts[0][0] != SEPARATOR);
            }
        }
        let front = joined_components(shorter);
        assert(joined_components(parts) == front + seq![SEPARATOR] + parts.last());
        lemma_segments_of_two(front, parts.last());
        assert(is_plain(parts.last()));
        lemma_segments_of_one(parts.last());
        assert(segments(joined_components(parts)) =~= parts);
        assert(shorter[0] == parts[0]);
        assert(joined_components(parts).take(parts[0].len() as int) =~= front.take(
            parts[0].len() as int,
        ));
    }
}

/// Filtering keeps every plain part.
pub proof fn lemma_plain_parts_are_named(parts: Seq<Seq<u8>>)
    requires
        are_plain(parts),
    ensures
        parts.filter(named()) == parts,
    decreases parts.len(),
{
    reveal(Seq::filter);
    if parts.len() > 0 {
        let shorter = parts.drop_last();
        assert forall|at: int| 0 <= at < shorter.len() implies is_plain(#[trigger] shorter[at]) by {
            assert(shorter[at] == parts[at]);
        }
        lemma_plain_parts_are_named(shorter);
        assert(is_plain(parts.last()));
        assert(shorter.push(parts.last()) =~= parts);
    }
}

/// Plain parts appended to a path are added to its components: the path
/// that `base` and `parts` are joined to is made of the components of
/// `base` followed by `parts`.
pub proof fn lemma_join_adds_components(base: Seq<u8>, parts: Seq<Seq<u8>>)
    requires
        are_plain(parts),
    ensures
        components(joined(base, joined_components(parts))) == components(base) + parts,
{
    broadcast use Seq::filter_distributes_over_add;

    if parts.len() == 0 {
        lemma_join_nothing(base);
        assert(components(base) + parts =~= components(base));
    } else {
        let tail = joined_components(parts);
        lemma_segments_of_plain_parts(parts);
        lemma_plain_parts_are_named(parts);
        lemma_segments_not_empty(base);
        assert(is_plain(parts[0]));
        assert(tail[0] == parts[0][0]);
        let whole = joined(base, tail);
        if base.len() == 0 {
            assert(whole =~= tail);
            assert(leading(tail) =~= Seq::<Seq<u8>>::empty()) by {
                if tail[0] == DOT && (tail.len() == 1 || tail[1] == SEPARATOR) {
                    if parts[0].len() > 1 {
                        assert(tail.take(parts[0].len() as int)[1] == parts[0][1]);
                    }
                    assert(parts[0] =~= seq![DOT]);
                }
            }
            assert(segments(base) =~= seq![Seq::<u8>::empty()]);
            lemma_named_push(Seq::empty(), Seq::empty());
            assert(seq![Seq::<u8>::empty()] =~= Seq::<Seq<u8>>::empty().push(Seq::<u8>::empty()));
            assert(components(whole) =~= components(base) + parts);
        } else if base.last() != SEPARATOR {
            assert(whole == base + seq![SEPARATOR] + tail);
            lemma_segments_of_two(base, tail);
            assert(leading(whole) == leading(base)) by {
                assert(whole[0] == base[0]);
                if base.len() > 1 {
                    assert(whole[1] == base[1]);
                } else {
                    assert(whole[1] == SEPARATOR);
                }
            }
            assert(components(whole) =~= components(base) + parts);
        } else {
            let front = base.drop_last();
            assert(whole =~= front + seq![SEPARATOR] + tail);
            lemma_segments_of_two(front, tail);
            lemma_segments_not_empty(front);
            assert(base =~= front.push(SEPARATOR));
            assert(segments(base) == segments(front).push(Seq::<u8>::empty()));
            lemma_named_push(segments(front), Seq::<u8>::empty());
            assert(leading(whole) == leading(base)) by {
                assert(whole[0] == base[0]);
                if base.len() > 1 {
                    assert(whole[1] == base[1]);
                }
            }
            assert(components(whole) =~= components(base) + parts);
        }
    }
}

/// Appending nothing to a path leaves its components as they are.
pub proof fn lemma_join_nothing(path: Seq<u8>)
    ensures
        components(joined(path, Seq::<u8>::empty())) == components(path),
{
    let whole = joined(path, Seq::<u8>::empty());
    if path.len() > 0 && path.last() != SEPARATOR {
        assert(whole =~= path.push(SEPARATOR));
        assert(whole.drop_last() =~= path);
        lemma_segments_not_empty(path);
        lemma_named_push(segments(path), Seq::<u8>::empty());
        assert(leading(whole) == leading(path));
    } else {
        assert(whole =~= path);
    }
}

/// Every component of a path after its first is plain.
pub proof fn lemma_later_components_are_plain(path: Seq<u8>, from: int)
    requires
        1 <= from <= components(path).len(),
    ensures
        are_plain(components(path).skip(from)),
{
    let head = leading(path);
    let body = segments(path).filter(named());
    let later = components(path).skip(from);
    assert forall|at: int| 0 <= at < later.len() implies is_plain(#[trigger] later[at]) by {
        let within = from + at - head.len();
        assert(later[at] == body[within]);
        segments(path).lemma_filter_pred(named(), within);
        segments(path).lemma_filter_contains_rev(named(), body[within]);
        let origin = choose|origin: int|
            0 <= origin < segments(path).len() && segments(path)[origin] == body[within];
        assert forall|inside: int| 0 <= inside < later[at].len() implies later[at][inside]
            != SEPARATOR by {
            lemma_segments_hold_no_separator(path, origin, inside);
        }
    }
}

/// What is left of a path below a base with at least one component, put
/// below another directory, names the components of that directory
/// followed by the components of the path below the base. This is how the
/// path of a file below its dataset is found again below each snapshot.
pub proof fn lemma_stripped_path_joins(path: Seq<u8>, base: Seq<u8>, directory: Seq<u8>)
    requires
        path_starts_with(path, base),
        components(base).len() > 0,
    ensures
        stripped(path, base) is Some,
        components(joined(directory, stripped(path, base)->0)) == components(directory)
            + components(path).skip(components(base).len() as int),
{
    lemma_later_components_are_plain(path, components(base).len() as int);
    lemma_join_adds_components(directory, components(path).skip(components(base).len() as int));
}

} // verus!
