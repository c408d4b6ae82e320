use vstd::prelude::*;

use rand::Rng;
use rand::SeedableRng;


verus! {

#[verifier::external_type_specification]
#[verifier::external_body]
pub struct ExWyRand(bevy_rand::prelude::WyRand);

/// Relies on `rand_core::SeedableRng::seed_from_u64` for bevy_rand's `WyRand`: a
/// generator whose stream is fixed by `seed`.
#[verifier::external_body]
pub(crate) fn seeded_rng(seed: u64) -> bevy_rand::prelude::WyRand {
    bevy_rand::prelude::WyRand::seed_from_u64(seed)
}

/// Relies on `rand::Rng::gen_range` over `lo..hi`: a value of the half-open range
/// (it panics on an empty range, which `requires` leaves out).
#[verifier::external_body]
pub(crate) fn random_in(rng: &mut bevy_rand::prelude::WyRand, lo: isize, hi: isize) -> (r: isize)
    requires
        lo < hi,
    ensures
        lo <= r < hi,
{
    rng.gen_range(lo..hi)
}

} // verus!
