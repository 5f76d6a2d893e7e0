//! Small verified helpers on byte strings.

use vstd::prelude::*;

verus! {

/// Copies a byte string.
pub fn copy_bytes(source: &Vec<u8>) -> (copy: Vec<u8>)
    ensures
        copy@ == source@,
{
    let mut copy: Vec<u8> = Vec::new();
    let mut at: usize = 0;
    while at < source.len()
        invariant
            at <= source.len(),
            copy@ == source@.take(at as int),
        decreases source.len() - at,
    {
        copy.push(source[at]);
        at = at + 1;
        assert(copy@ == source@.take(at as int));
    }
    assert(source@.take(source.len() as int) == source@);
    copy
}

/// Byte-exact equality of two byte strings.
pub fn bytes_equal(left: &Vec<u8>, right: &Vec<u8>) -> (same: bool)
    ensures
        same == (left@ == right@),
{
    if left.len() != right.len() {
        return false;
    }
    let mut at: usize = 0;
    while at < left.len()
        invariant
            at <= left.len(),
            left.len() == right.len(),
            forall|k: int| 0 <= k < at ==> left@[k] == right@[k],
        decreases left.len() - at,
    {
        if left[at] != right[at] {
            return false;
        }
        at = at + 1;
    }
    assert(left@ =~= right@);
    true
}

/// Whether `tail` is a plain suffix of `whole`.
pub fn ends_with(whole: &Vec<u8>, tail: &Vec<u8>) -> (is_suffix: bool)
    ensures
        is_suffix == tail@.is_suffix_of(whole@),
{
    if tail.len() > whole.len() {
        return false;
    }
    let offset: usize = whole.len() - tail.len();
    let mut at: usize = 0;
    while at < tail.len()
        invariant
            at <= tail.len(),
            offset + tail.len() == whole.len(),
            forall|k: int| 0 <= k < at ==> tail@[k] == whole@[offset + k],
        decreases tail.len() - at,
    {
        if tail[at] != whole[offset + at] {
            assert(whole@.skip(whole@.len() - tail@.len())[at as int] != tail@[at as int]);
            return false;
        }
        at = at + 1;
    }
    assert(tail@ =~= whole@.skip(whole@.len() - tail@.len()));
    true
}

/// Appends all of `tail` to `target`.
pub fn append_bytes(target: &mut Vec<u8>, tail: &Vec<u8>)
    ensures
        final(target)@ == old(target)@ + tail@,
{
    let mut at: usize = 0;
    while at < tail.len()
        invariant
            at <= tail.len(),
            target@ == old(target)@ + tail@.take(at as int),
        decreases tail.len() - at,
    {
        target.push(tail[at]);
        at = at + 1;
        assert(target@ == old(target)@ + tail@.take(at as int));
    }
    assert(tail@.take(tail.len() as int) == tail@);
}

/// `text` with each occurrence of `from` replaced by `to`, the occurrences
/// found from left to right and none overlapping another.
pub open spec fn replaced(text: Seq<u8>, from: Seq<u8>, to: Seq<u8>) -> Seq<u8>
    decreases text.len(),
{
    if from.len() == 0 || text.len() < from.len() {
        text
    } else if text.take(from.len() as int) == from {
        to + replaced(text.skip(from.len() as int), from, to)
    } else {
        seq![text[0]] + replaced(text.skip(1), from, to)
    }
}

/// Whether `pattern` stands in `text` at position `at`.
pub fn occurs_at(text: &Vec<u8>, at: usize, pattern: &Vec<u8>) -> (yes: bool)
    requires
        at <= text.len(),
    ensures
        yes == (pattern@.len() <= text@.len() - at && text@.skip(at as int).take(
            pattern@.len() as int,
        ) == pattern@),
{
    if pattern.len() > text.len() - at {
        return false;
    }
    let mut k: usize = 0;
    while k < pattern.len()
        invariant
            k <= pattern.len(),
            at + pattern.len() <= text.len(),
            forall|n: int| 0 <= n < k ==> text@[at + n] == pattern@[n],
        decreases pattern.len() - k,
    {
        if text[at + k] != pattern[k] {
            assert(text@.skip(at as int).take(pattern@.len() as int)[k as int] != pattern@[k as int]);
            return false;
        }
        k = k + 1;
    }
    assert(text@.skip(at as int).take(pattern@.len() as int) =~= pattern@);
    true
}

/// Replaces each occurrence of `from` in `text` by `to`.
pub fn replace_all(text: &Vec<u8>, from: &Vec<u8>, to: &Vec<u8>) -> (result: Vec<u8>)
    requires
        from@.len() > 0,
    ensures
        result@ == replaced(text@, from@, to@),
{
    let mut result: Vec<u8> = Vec::new();
    let mut at: usize = 0;
    assert(text@.skip(0) =~= text@);
    while at < text.len()
        invariant
            at <= text.len(),
            from@.len() > 0,
            result@ + replaced(text@.skip(at as int), from@, to@) == replaced(text@, from@, to@),
        decreases text.len() - at,
    {
        let ghost rest = text@.skip(at as int);
        if occurs_at(text, at, from) {
            append_bytes(&mut result, to);
            at = at + from.len();
            assert(rest.skip(from@.len() as int) =~= text@.skip(at as int));
            assert(result@ + replaced(text@.skip(at as int), from@, to@) =~= replaced(
                text@,
                from@,
                to@,
            ));
        } else if text.len() - at < from.len() {
            let ghost before = result@;
            let mut k: usize = at;
            while k < text.len()
                invariant
                    at <= k <= text.len(),
                    result@ == before + text@.subrange(at as int, k as int),
                decreases text.len() - k,
            {
                result.push(text[k]);
                k = k + 1;
                assert(result@ =~= before + text@.subrange(at as int, k as int));
            }
            assert(text@.subrange(at as int, text.len() as int) =~= rest);
            at = text.len();
            assert(text@.skip(at as int) =~= Seq::<u8>::empty());
            assert(result@ + replaced(text@.skip(at as int), from@, to@) =~= replaced(
                text@,
                from@,
                to@,
            ));
        } else {
            result.push(text[at]);
            at = at + 1;
            assert(rest.skip(1) =~= text@.skip(at as int));
            assert(result@ + replaced(text@.skip(at as int), from@, to@) =~= replaced(
                text@,
                from@,
                to@,
            ));
        }
    }
    assert(text@.skip(text.len() as int) =~= Seq::<u8>::empty());
    assert(result@ + Seq::<u8>::empty() =~= result@);
    result
}

/// The byte strings that a vector of byte strings holds.
pub open spec fn byte_views(parts: Seq<Vec<u8>>) -> Seq<Seq<u8>> {
    parts.map_values(|part: Vec<u8>| part@)
}

/// The pieces of `text` between the occurrences of `byte`, empty pieces
/// included.
pub open spec fn pieces(text: Seq<u8>, byte: u8) -> Seq<Seq<u8>>
    decreases text.len(),
{
    if text.len() == 0 {
        seq![Seq::<u8>::empty()]
    } else {
        let before = pieces(text.drop_last(), byte);
        if text.last() == byte {
            before.push(Seq::<u8>::empty())
        } else {
            before.drop_last().push(before.last().push(text.last()))
        }
    }
}

/// Cuts `text` at every occurrence of `byte`.
pub fn split_on(text: &Vec<u8>, byte: u8) -> (parts: Vec<Vec<u8>>)
    ensures
        byte_views(parts@) == pieces(text@, byte),
{
    let mut parts: Vec<Vec<u8>> = Vec::new();
    let mut piece: Vec<u8> = Vec::new();
    let mut at: usize = 0;
    assert(text@.take(0) =~= Seq::<u8>::empty());
    assert(byte_views(parts@) =~= pieces(text@.take(0), byte).drop_last());
    while at < text.len()
        invariant
            at <= text.len(),
            pieces(text@.take(at as int), byte).len() > 0,
            piece@ == pieces(text@.take(at as int), byte).last(),
            byte_views(parts@) == pieces(text@.take(at as int), byte).drop_last(),
        decreases text.len() - at,
    {
        let ghost before = pieces(text@.take(at as int), byte);
        let ghost after = pieces(text@.take(at as int + 1), byte);
        proof {
            assert(text@.take(at as int + 1).drop_last() =~= text@.take(at as int));
            assert(text@.take(at as int + 1).last() == text@[at as int]);
        }
        if text[at] == byte {
            let ghost earlier = parts@;
            proof {
                assert(after == before.push(Seq::<u8>::empty()));
                assert(after.drop_last() =~= before);
                assert(before =~= before.drop_last().push(before.last()));
            }
            parts.push(piece);
            assert(byte_views(parts@) =~= byte_views(earlier).push(before.last()));
            piece = Vec::new();
        } else {
            proof {
                assert(after == before.drop_last().push(before.last().push(text@[at as int])));
                assert(after.drop_last() =~= before.drop_last());
            }
            piece.push(text[at]);
        }
        at = at + 1;
    }
    assert(text@.take(text.len() as int) =~= text@);
    let ghost earlier = parts@;
    let ghost all = pieces(text@, byte);
    parts.push(piece);
    assert(byte_views(parts@) =~= byte_views(earlier).push(all.last()));
    assert(all =~= all.drop_last().push(all.last()));
    parts
}

} // verus!
