//! The random source: a seeded `StdRng` threaded explicitly through every
//! generation call. Each function here makes one call into `rand` and states
//! what its documentation promises of every outcome.

use rand::rngs::StdRng;
use rand::seq::SliceRandom;
use rand::Rng;
use vstd::prelude::*;

verus! {

#[verifier::external_type_specification]
#[verifier::external_body]
pub struct ExStdRng(StdRng);

/// Relies on rand's `Rng::random_range`: a value drawn from the half-open
/// range `lo..hi`; it panics on an empty range, which `requires` leaves out.
#[verifier::external_body]
pub(crate) fn draw_range(rng: &mut StdRng, lo: u64, hi: u64) -> (r: u64)
    requires
        lo < hi,
    ensures
        lo <= r < hi,
{
    rng.random_range(lo..hi)
}

/// Relies on rand's `Rng::random_ratio`: true with chance `numerator` in
/// `denominator`, always false for a zero numerator and always true when the
/// two are equal; it panics on a zero denominator or a numerator above it.
#[verifier::external_body]
pub(crate) fn draw_ratio(rng: &mut StdRng, numerator: u32, denominator: u32) -> (r: bool)
    requires
        0 < denominator,
        numerator <= denominator,
    ensures
        numerator == 0 ==> !r,
        numerator == denominator ==> r,
{
    rng.random_ratio(numerator, denominator)
}

/// Relies on rand's `SliceRandom::shuffle`: the items are permuted in place,
/// none added and none lost.
#[verifier::external_body]
pub(crate) fn shuffle_items(rng: &mut StdRng, items: &mut Vec<usize>)
    ensures
        final(items)@.to_multiset() == old(items)@.to_multiset(),
{
    items.shuffle(rng)
}

} // verus!
