//! The source of randomness, threaded explicitly through the tracer so that
//! renders are reproducible from a seed.

use vstd::prelude::*;
use rand::SeedableRng;
use rand::RngExt;

verus! {

#[verifier::external_type_specification]
#[verifier::external_body]
pub struct ExStdRng(rand::rngs::StdRng);

/// A seeded pseudo-random generator handed down the call chain.
pub struct Sampler {
    rng: rand::rngs::StdRng,
}

impl Sampler {
    /// Relies on rand's `SeedableRng::seed_from_u64` to build a generator
    /// from a 64-bit seed; nothing is assumed about the values it yields.
    #[verifier::external_body]
    pub fn new(seed: u64) -> (r: Sampler) {
        Sampler { rng: rand::rngs::StdRng::seed_from_u64(seed) }
    }

    /// Relies on rand's `RngExt::random_range`, which returns a value of the
    /// given half-open range and panics only when the range is empty.
    #[verifier::external_body]
    pub(crate) fn next_in(&mut self, lo: i64, hi: i64) -> (r: i64)
        requires
            lo < hi,
        ensures
            lo <= r < hi,
    {
        self.rng.random_range(lo..hi)
    }
}

} // verus!
