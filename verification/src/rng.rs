//! The injected random source.
//!
//! The search consumes uniform random draws from an explicitly owned,
//! seedable generator, so a run is reproducible from its seed. The
//! generator itself is an external collaborator: the verified code relies
//! only on the range of each draw, never on its distribution.

use rand::RngExt;
use rand::SeedableRng;
use vstd::prelude::*;

verus! {

#[verifier::external_type_specification]
#[verifier::external_body]
pub struct ExStdRng(rand::rngs::StdRng);

/// One micro-unit scale: fractions and probabilities are carried as
/// integer numbers of millionths.
pub const MICRO: u64 = 1000000;

/// A deterministic, seedable source of uniform random numbers.
pub struct RandomSource {
    inner: rand::rngs::StdRng,
}

impl RandomSource {
    /// Relies on rand's `StdRng::seed_from_u64`: builds a generator whose
    /// draw sequence is a function of the seed.
    #[verifier::external_body]
    pub fn from_seed(seed: u64) -> (r: RandomSource) {
        RandomSource { inner: rand::rngs::StdRng::seed_from_u64(seed) }
    }

    /// Relies on rand's `RngExt::random_range` over `0..n`: returns a
    /// value of the non-empty range (it panics on an empty one).
    #[verifier::external_body]
    pub fn next_below(&mut self, n: u64) -> (r: u64)
        requires
            n >= 1,
        ensures
            r < n,
    {
        self.inner.random_range(0..n)
    }

    /// A uniform index below `n`.
    pub fn next_index(&mut self, n: usize) -> (r: usize)
        requires
            n >= 1,
        ensures
            r < n,
    {
        let r = self.next_below(n as u64);
        r as usize
    }

    /// A uniform fraction in `[0, 1)`, in micro-units.
    pub fn next_micro(&mut self) -> (r: u64)
        ensures
            r < MICRO,
    {
        self.next_below(MICRO)
    }

    /// A uniform signed delta in `[-magnitude, magnitude]`.
    pub fn next_delta(&mut self, magnitude: i64) -> (r: i64)
        requires
            0 <= magnitude <= 0x1000000,
        ensures
            -magnitude <= r <= magnitude,
    {
        let raw = self.next_below(2 * (magnitude as u64) + 1);
        (raw as i64) - magnitude
    }
}

} // verus!
