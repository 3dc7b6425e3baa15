//! The random-number source, behind trusted declarations: the library
//! uses a seeded generator for sub-pixel jitter and bounce directions.

use vstd::prelude::*;
use rand::Rng;
use rand::SeedableRng;
use rand::rngs::StdRng;

verus! {

#[verifier::external_type_specification]
#[verifier::external_body]
pub struct ExStdRng(StdRng);

/// Relies on rand::SeedableRng::seed_from_u64: builds a generator
/// deterministically from a 64-bit seed. Nothing is assumed of the
/// values it will produce.
#[verifier::external_body]
pub fn rng_from_seed(seed: u64) -> StdRng {
    StdRng::seed_from_u64(seed)
}

/// Relies on rand::Rng::gen_range on the half-open range `0..bound`:
/// it returns a value of that range, and panics only on an empty
/// range, which the precondition rules out.
#[verifier::external_body]
pub fn rand_below(rng: &mut StdRng, bound: u64) -> (r: u64)
    requires
        bound >= 1,
    ensures
        r < bound,
{
    rng.gen_range(0..bound)
}

} // verus!
