use rand::rngs::SmallRng;
use rand::RngCore;
use rand::SeedableRng;
use vstd::prelude::*;

verus! {

#[verifier::external_type_specification]
#[verifier::external_body]
pub struct ExSmallRng(SmallRng);

/// Relies on `rand::SeedableRng::seed_from_u64` for `SmallRng`: a generator
/// seeded from `seed`. Its stream depends on the platform, so nothing is
/// stated of what it will draw.
#[verifier::external_body]
pub(crate) fn seeded_rng(seed: u64) -> SmallRng {
    SmallRng::seed_from_u64(seed)
}

/// Relies on `rand::RngCore::next_u32` for `SmallRng`: the next value of the
/// stream, which may be any `u32`.
#[verifier::external_body]
pub(crate) fn next_draw(rng: &mut SmallRng) -> u32 {
    rng.next_u32()
}

} // verus!
