//! Randomness for the generation algorithms, drawn from the `rand` crate.
//!
//! Every draw goes through one of the wrappers below; the algorithms state
//! what holds of whatever comes back, never which value comes back.

use vstd::prelude::*;

verus! {

/// The seedable generator that the generation algorithms draw from.
#[verifier::external_type_specification]
#[verifier::external_body]
pub struct ExStdRng(rand::rngs::StdRng);

/// Relies on `rand::random`: a seed picked with no promise about its value.
#[verifier::external_body]
pub(crate) fn random_seed() -> u32 {
    rand::random()
}

/// Relies on `rand::SeedableRng::seed_from_u64`: a generator whose draws are
/// determined by the given seed.
#[verifier::external_body]
pub(crate) fn rng_from_seed(seed: u64) -> rand::rngs::StdRng {
    rand::SeedableRng::seed_from_u64(seed)
}

/// Relies on `rand::Rng::gen_range` over `lo..hi`: it panics on an empty
/// range and otherwise returns a value within the range.
#[verifier::external_body]
pub(crate) fn rng_range(rng: &mut rand::rngs::StdRng, lo: usize, hi: usize) -> (result: usize)
    requires
        lo < hi,
    ensures
        lo <= result < hi,
{
    rand::Rng::gen_range(rng, lo..hi)
}

/// Relies on `rand::Rng::gen_ratio`: a draw that is true with probability
/// `numerator / denominator`; it panics when the denominator is zero or the
/// numerator exceeds it, and otherwise returns some boolean.
#[verifier::external_body]
pub(crate) fn rng_ratio(rng: &mut rand::rngs::StdRng, numerator: u32, denominator: u32) -> bool
    requires
        0 < denominator,
        numerator <= denominator,
{
    rand::Rng::gen_ratio(rng, numerator, denominator)
}

} // verus!
