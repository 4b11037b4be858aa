//! Random numbers: the few draws the game makes, from a seedable generator.

use rand::rngs::StdRng;
use rand::seq::SliceRandom;
use rand::Rng;
use rand::SeedableRng;

use vstd::prelude::*;

verus! {

#[verifier::external_type_specification]
#[verifier::external_body]
pub struct ExStdRng(rand::rngs::StdRng);

/// `rng.random_range(lo..hi)`: a value in `lo..hi`. What value comes out
/// depends on the generator's state and is not stated.
#[verifier::external_body]
pub(crate) fn random_u32(rng: &mut StdRng, lo: u32, hi: u32) -> (r: u32)
    requires
        lo < hi,
    ensures
        lo <= r < hi,
{
    rng.random_range(lo..hi)
}

/// `rng.random_range(lo..=hi)` for `u32`: a value in `lo..=hi` (not stated which).
#[verifier::external_body]
pub(crate) fn random_u32_inclusive(rng: &mut StdRng, lo: u32, hi: u32) -> (r: u32)
    requires
        lo <= hi,
    ensures
        lo <= r <= hi,
{
    rng.random_range(lo..=hi)
}

/// `rng.random_range(lo..=hi)` for `i32`: a value in `lo..=hi` (not stated which).
#[verifier::external_body]
pub(crate) fn random_i32_inclusive(rng: &mut StdRng, lo: i32, hi: i32) -> (r: i32)
    requires
        lo <= hi,
    ensures
        lo <= r <= hi,
{
    rng.random_range(lo..=hi)
}

/// `rng.random_range(0..n)` for `usize`: an index below `n` (not stated which).
#[verifier::external_body]
pub(crate) fn random_index(rng: &mut StdRng, n: usize) -> (r: usize)
    requires
        n > 0,
    ensures
        r < n,
{
    rng.random_range(0..n)
}

/// `rng.random_ratio(numerator, denominator)`: `true` with that chance. As
/// rand documents, a zero numerator always gives `false` and a numerator
/// equal to the denominator always gives `true`; otherwise the outcome is
/// not stated.
#[verifier::external_body]
pub(crate) fn random_ratio(rng: &mut StdRng, numerator: u32, denominator: u32) -> (b: bool)
    requires
        0 < denominator,
        numerator <= denominator,
    ensures
        numerator == 0 ==> !b,
        numerator == denominator ==> b,
{
    rng.random_ratio(numerator, denominator)
}

/// `StdRng::from_seed(seed)`: a generator determined by the seed. Nothing is
/// stated of it, as the generator is opaque.
#[verifier::external_body]
pub(crate) fn rng_from_seed(seed: [u8; 32]) -> (r: StdRng) {
    StdRng::from_seed(seed)
}

/// `SliceRandom::shuffle`: the same entries in some order (not stated which).
#[verifier::external_body]
pub(crate) fn shuffle_pairs(v: &mut Vec<(u64, i32)>, rng: &mut StdRng)
    ensures
        final(v)@.to_multiset() == old(v)@.to_multiset(),
        final(v)@.len() == old(v)@.len(),
{
    v.shuffle(rng)
}

} // verus!
