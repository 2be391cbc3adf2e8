//! The injected random-number source: the one place the engine touches
//! randomness. The generator never reads entropy itself; it asks this
//! source for uniform integers in a half-open range.

use vstd::prelude::*;

verus! {

#[verifier::external_type_specification]
#[verifier::external_body]
pub struct ExStdRng(rand::rngs::StdRng);

/// A source of uniformly distributed integers, backed by rand's standard
/// generator. Seedable, so tests can be deterministic.
pub struct RandSource {
    rng: rand::rngs::StdRng,
}

impl RandSource {
    /// Relies on rand's `SeedableRng::seed_from_u64`: builds a generator
    /// from a 64-bit seed. Nothing is promised of the values it will yield.
    #[verifier::external_body]
    pub fn seeded(seed: u64) -> RandSource {
        RandSource { rng: <rand::rngs::StdRng as rand::SeedableRng>::seed_from_u64(seed) }
    }

    /// Relies on rand's `make_rng`: seeds a fresh generator from the
    /// thread-local one. Nothing is promised of the values it will yield.
    #[verifier::external_body]
    pub fn from_entropy() -> RandSource {
        RandSource { rng: rand::make_rng() }
    }

    /// Relies on rand's `RngExt::random_range` over `0..bound`: a uniformly
    /// distributed integer below `bound`. The range is non-empty, so the
    /// call cannot panic; of the value itself only the bound is promised.
    #[verifier::external_body]
    pub(crate) fn below(&mut self, bound: u128) -> (r: u128)
        requires
            bound >= 1,
        ensures
            r < bound,
    {
        rand::RngExt::random_range(&mut self.rng, 0..bound)
    }
}

} // verus!
