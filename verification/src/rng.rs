//! The pseudo-random generator that drives reactions.

use vstd::prelude::*;

verus! {

/// `rand_xoshiro::Xoroshiro64StarStar`: the state of a generator. Nothing
/// of its content is visible here.
#[verifier::external_type_specification]
#[verifier::external_body]
pub struct ExXoroshiro64StarStar(rand_xoshiro::Xoroshiro64StarStar);

/// The generator of one strip of the grid.
pub type SimRng = rand_xoshiro::Xoroshiro64StarStar;

/// `SeedableRng::seed_from_u64` for `Xoroshiro64StarStar`: a generator
/// whose stream is fixed by `seed`. Nothing is claimed of the stream.
#[verifier::external_body]
pub(crate) fn rng_from_seed(seed: u64) -> (rng: SimRng) {
    rand::SeedableRng::seed_from_u64(seed)
}

/// `Rng::gen_ratio`: a draw that is true with probability
/// `numerator / denominator`. Its documentation guarantees `true` where
/// the two are equal and `false` where `numerator` is zero; it panics
/// where `denominator` is zero or below `numerator`, which `requires`
/// leaves out. Nothing else is claimed of the draw.
#[verifier::external_body]
pub(crate) fn rng_ratio(rng: &mut SimRng, numerator: u32, denominator: u32) -> (fired: bool)
    requires
        denominator > 0,
        numerator <= denominator,
    ensures
        numerator == denominator ==> fired,
        numerator == 0 ==> !fired,
{
    rand::Rng::gen_ratio(rng, numerator, denominator)
}

} // verus!
