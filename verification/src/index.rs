//! Hash indexes, kept in `fxhash` maps.
//!
//! Verus sees nothing inside these maps. What a map holds has a name, and
//! the functions below say what each call does to it; none of that is
//! proved here.

use vstd::prelude::*;

verus! {

/// `FxHasher` of `fxhash`, the hasher of the maps below. Nothing is said
/// of it: it is named so that the maps can be.
#[verifier::external_type_specification]
#[verifier::external_body]
pub struct ExFxHasher(fxhash::FxHasher);

/// `BuildHasherDefault` of the standard library, which makes the hasher of
/// a map. Nothing is said of it: it is named so that the maps can be.
#[verifier::external_type_specification]
#[verifier::external_body]
#[verifier::reject_recursive_types(H)]
pub struct ExBuildHasherDefault<H>(core::hash::BuildHasherDefault<H>);

/// What an index from names to positions holds.
pub uninterp spec fn name_index_contents(index: fxhash::FxHashMap<Vec<u8>, usize>) -> Map<
    Seq<u8>,
    usize,
>;

/// What an index from pairs of modification time and size to positions
/// holds.
pub uninterp spec fn version_index_contents(
    index: fxhash::FxHashMap<(i128, u64), usize>,
) -> Map<(i128, u64), usize>;

/// `FxHashMap::default`: the new map holds nothing.
#[verifier::external_body]
pub(crate) fn name_index_new() -> (index: fxhash::FxHashMap<Vec<u8>, usize>)
    ensures
        name_index_contents(index) =~= Map::empty(),
{
    fxhash::FxHashMap::default()
}

/// `HashMap::insert` on a map with the `fxhash` hasher: afterwards `name`
/// leads to `position`, whatever it led to before, and every other name
/// leads to what it led to before. Names are the same where their bytes are.
#[verifier::external_body]
pub(crate) fn name_index_insert(
    index: &mut fxhash::FxHashMap<Vec<u8>, usize>,
    name: &Vec<u8>,
    position: usize,
)
    ensures
        name_index_contents(*final(index)) == name_index_contents(*old(index)).insert(
            name@,
            position,
        ),
{
    index.insert(name.clone(), position);
}

/// `HashMap::get` on a map with the `fxhash` hasher: the position that
/// `name` leads to, or nothing where the map does not hold `name`.
#[verifier::external_body]
pub(crate) fn name_index_get(index: &fxhash::FxHashMap<Vec<u8>, usize>, name: &Vec<u8>) -> (found:
    Option<usize>)
    ensures
        found == (if name_index_contents(*index).contains_key(name@) {
            Some(name_index_contents(*index)[name@])
        } else {
            None
        }),
{
    index.get(name).copied()
}

/// `FxHashMap::default`: the new map holds nothing.
#[verifier::external_body]
pub(crate) fn version_index_new() -> (index: fxhash::FxHashMap<(i128, u64), usize>)
    ensures
        version_index_contents(index) =~= Map::empty(),
{
    fxhash::FxHashMap::default()
}

/// `HashMap::insert` on a map with the `fxhash` hasher: afterwards the pair
/// of `system_time` and `size` leads to `position`, and every other pair
/// leads to what it led to before.
#[verifier::external_body]
pub(crate) fn version_index_insert(
    index: &mut fxhash::FxHashMap<(i128, u64), usize>,
    system_time: i128,
    size: u64,
    position: usize,
)
    ensures
        version_index_contents(*final(index)) == version_index_contents(*old(index)).insert(
            (system_time, size),
            position,
        ),
{
    index.insert((system_time, size), position);
}

/// `HashMap::get` on a map with the `fxhash` hasher: the position that the
/// pair of `system_time` and `size` leads to, or nothing where the map does
/// not hold the pair.
#[verifier::external_body]
pub(crate) fn version_index_get(
    index: &fxhash::FxHashMap<(i128, u64), usize>,
    system_time: i128,
    size: u64,
) -> (found: Option<usize>)
    ensures
        found == (if version_index_contents(*index).contains_key((system_time, size)) {
            Some(version_index_contents(*index)[(system_time, size)])
        } else {
            None
        }),
{
    index.get(&(system_time, size)).copied()
}

} // verus!
