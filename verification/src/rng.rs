//! Pseudo-random source for level generation and dice rolls.
//!
//! The generator is seedable and passed explicitly through every call that
//! draws from it, so that generation can be reproduced in tests; production
//! code seeds it from entropy once at startup.

use vstd::prelude::*;

verus! {

#[verifier::external_type_specification]
#[verifier::external_body]
pub struct ExStdRng(rand::rngs::StdRng);

/// A seedable pseudo-random number generator.
pub struct GameRng {
    inner: rand::rngs::StdRng,
}

impl GameRng {
    /// Relies on rand's `SeedableRng::seed_from_u64` for `StdRng`:
    /// builds a generator from a 64-bit seed.
    #[verifier::external_body]
    pub fn from_seed(seed: u64) -> GameRng {
        GameRng { inner: <rand::rngs::StdRng as rand::SeedableRng>::seed_from_u64(seed) }
    }

    /// Relies on rand's `RngExt::random_range`: returns a value drawn from
    /// the half-open range `[lo, hi)`, which must not be empty.
    #[verifier::external_body]
    pub fn random_range(&mut self, lo: usize, hi: usize) -> (r: usize)
        requires
            lo < hi,
        ensures
            lo <= r < hi,
    {
        rand::RngExt::random_range(&mut self.inner, lo..hi)
    }

    /// Draws `true` with probability `pct` per cent.
    pub fn chance(&mut self, pct: usize) -> (r: bool)
        requires
            pct <= 100,
    {
        self.random_range(0, 100) < pct
    }
}

} // verus!
