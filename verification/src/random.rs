//! The randomness the engine draws on: a handle on a random generator,
//! threaded explicitly so the caller decides where randomness enters a run
//! and can seed it for reproducible runs.  Nothing is assumed of the drawn
//! values beyond their range, so everything proved downstream holds
//! whatever the generator returns.

use vstd::prelude::*;

use rand::Rng;
use rand::SeedableRng;
use rand::seq::SliceRandom;

use crate::rules::Rule;

verus! {

#[verifier::external_type_specification]
#[verifier::external_body]
pub struct ExStdRng(rand::rngs::StdRng);

/// An explicit handle on a random generator.
pub struct RandomSource {
    rng: rand::rngs::StdRng,
}

impl RandomSource {
    /// Relies on rand::SeedableRng::from_entropy: a generator freshly
    /// seeded from the system's entropy source.
    #[verifier::external_body]
    pub fn new() -> (r: RandomSource) {
        RandomSource { rng: rand::rngs::StdRng::from_entropy() }
    }

    /// Relies on rand::SeedableRng::seed_from_u64: a generator whose draws
    /// are a function of `seed` alone, for reproducible runs.
    #[verifier::external_body]
    pub fn seeded(seed: u64) -> (r: RandomSource) {
        RandomSource { rng: rand::rngs::StdRng::seed_from_u64(seed) }
    }
}

/// Relies on rand::Rng::gen_range: a value drawn from `0..n` lies below `n`
/// (and `n > 0` keeps the range non-empty, on which the call insists).
#[verifier::external_body]
pub fn rand_below(src: &mut RandomSource, n: usize) -> (r: usize)
    requires
        n > 0,
    ensures
        r < n,
{
    src.rng.gen_range(0..n)
}

/// Relies on rand::seq::SliceRandom::shuffle: a Fisher-Yates pass that only
/// swaps elements in place, so the vector afterwards holds exactly the same
/// rules, in some order.
#[verifier::external_body]
pub fn shuffle_rules(rules: &mut Vec<Rule>, src: &mut RandomSource)
    ensures
        final(rules)@.len() == old(rules)@.len(),
        final(rules)@.to_multiset() == old(rules)@.to_multiset(),
{
    rules.as_mut_slice().shuffle(&mut src.rng);
}

} // verus!
