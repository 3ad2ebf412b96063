//! Randomness, supplied by the `rand` crate behind trusted wrappers.
//!
//! Every stochastic decision in the tracer (pixel jitter, lens sampling,
//! scatter directions, the axis a tree node splits on) draws through
//! `rand_below`, so one explicit generator handle is threaded through all of
//! them and a fixed seed reproduces a render exactly.

use vstd::prelude::*;
use crate::fx::SCALE;

verus! {

#[verifier::external_type_specification]
#[verifier::external_body]
pub struct ExStdRng(rand::rngs::StdRng);

/// Relies on rand::SeedableRng::seed_from_u64: builds a generator from a
/// 64-bit seed; the same seed gives the same stream.
#[verifier::external_body]
pub fn rng_from_seed(seed: u64) -> rand::rngs::StdRng {
    rand::SeedableRng::seed_from_u64(seed)
}

/// Relies on rand::Rng::gen_range on the range `0..n`: a uniform draw from
/// `[0, n)`; it panics only on an empty range, which `n >= 1` rules out.
#[verifier::external_body]
pub(crate) fn rand_below(rng: &mut rand::rngs::StdRng, n: u64) -> (r: u64)
    requires
        n >= 1,
    ensures
        r < n,
{
    rand::Rng::gen_range(rng, 0..n)
}

/// A fixed-point draw from `[0, 1)`.
pub fn rand_unit(rng: &mut rand::rngs::StdRng) -> (r: i64)
    ensures
        0 <= r < SCALE,
{
    rand_below(rng, SCALE as u64) as i64
}

/// A fixed-point draw from `[lo, hi)`.
pub fn rand_range(rng: &mut rand::rngs::StdRng, lo: i64, hi: i64) -> (r: i64)
    requires
        lo < hi,
        hi - lo <= i64::MAX,
    ensures
        lo <= r < hi,
{
    let span = (hi as i128 - lo as i128) as u64;
    let off = rand_below(rng, span);
    ((lo as i128) + (off as i128)) as i64
}

/// A uniform choice among the three coordinate axes.
pub fn rand_axis(rng: &mut rand::rngs::StdRng) -> (r: usize)
    ensures
        r < 3,
{
    rand_below(rng, 3) as usize
}

} // verus!
