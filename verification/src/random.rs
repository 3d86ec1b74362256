//! Draws of random numbers, made by the `rand` crate behind trusted
//! wrappers. Nothing is assumed of a draw beyond its range.

use rand::RngExt;
use vstd::prelude::*;

verus! {

/// Relies on rand's `random_range` over `lo..=hi`: the draw lies within the
/// inclusive range.
#[verifier::external_body]
pub fn random_inclusive(lo: u64, hi: u64) -> (r: u64)
    requires
        lo <= hi,
    ensures
        lo <= r <= hi,
{
    let mut rng = rand::rng();
    rng.random_range(lo..=hi)
}

/// Relies on rand's `random_range` over `0..n`: the draw is below `n`.
#[verifier::external_body]
pub fn random_below(n: u64) -> (r: u64)
    requires
        n >= 1,
    ensures
        r < n,
{
    let mut rng = rand::rng();
    rng.random_range(0..n)
}

} // verus!
