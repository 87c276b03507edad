use vstd::prelude::*;
use bracket_lib::prelude::RandomNumberGenerator;

verus! {

/// The random number generator of bracket-lib (a xorshift generator).
#[verifier::external_type_specification]
#[verifier::external_body]
pub struct ExRandomNumberGenerator(RandomNumberGenerator);

/// Relies on `RandomNumberGenerator::new` of bracket-lib: a generator seeded from the
/// operating system's entropy (or the clock when that fails).
#[verifier::external_body]
pub(crate) fn fresh_rng() -> (r: RandomNumberGenerator) {
    RandomNumberGenerator::new()
}

/// Relies on `RandomNumberGenerator::range` of bracket-lib: a value in `lo..hi`, upper bound
/// excluded. The generator panics on an empty range, which `requires` rules out.
#[verifier::external_body]
pub(crate) fn random_in_range(rng: &mut RandomNumberGenerator, lo: i32, hi: i32) -> (r: i32)
    requires
        lo < hi,
    ensures
        lo <= r < hi,
{
    rng.range(lo, hi)
}

/// Relies on `RandomNumberGenerator::random_slice_entry` of bracket-lib: `None` for an empty
/// slice, else one of its entries; only the tile of the entry is handed back. The generator
/// draws an index below the length as an `i32`, which `requires` keeps from overflowing.
#[verifier::external_body]
pub(crate) fn random_exit(rng: &mut RandomNumberGenerator, exits: &Vec<(usize, u32)>) -> (r: Option<usize>)
    requires
        exits@.len() < i32::MAX,
    ensures
        r.is_none() == (exits@.len() == 0),
        r.is_some() ==> exists|k: int| 0 <= k < exits@.len() && (#[trigger] exits@[k]).0 == r.unwrap(),
{
    rng.random_slice_entry(exits.as_slice()).map(|e| e.0)
}

} // verus!
