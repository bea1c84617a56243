//! The pseudo-random number generator behind the `random` opcode: an
//! xorshift generator owned by the runtime, reseedable from the game or from
//! an entropy source.

use vstd::prelude::*;

verus! {

#[verifier::external_type_specification]
#[verifier::external_body]
pub struct ExXorShiftRng(rand::XorShiftRng);

/// Relies on rand's `XorShiftRng` through `SeedableRng::from_seed`, which
/// panics on an all-zero seed; the requires excludes that.
#[verifier::external_body]
pub(crate) fn xorshift_from_seed(seed: [u32; 4]) -> rand::XorShiftRng
    requires
        seed[0] != 0 || seed[1] != 0 || seed[2] != 0 || seed[3] != 0,
{
    <rand::XorShiftRng as rand::SeedableRng<[u32; 4]>>::from_seed(seed)
}

/// Relies on rand's `SeedableRng::reseed` for `XorShiftRng`, which panics on
/// an all-zero seed; the requires excludes that.
#[verifier::external_body]
pub(crate) fn xorshift_reseed(rng: &mut rand::XorShiftRng, seed: [u32; 4])
    requires
        seed[0] != 0 || seed[1] != 0 || seed[2] != 0 || seed[3] != 0,
{
    rand::SeedableRng::reseed(rng, seed)
}

/// Relies on rand's `Rng::next_u32`; nothing is promised of the value.
#[verifier::external_body]
pub(crate) fn xorshift_next(rng: &mut rand::XorShiftRng) -> u32 {
    rand::Rng::next_u32(rng)
}

/// Relies on rand's `random`, drawing from the thread-local generator;
/// nothing can be promised of the value.
#[verifier::external_body]
pub(crate) fn entropy_u32() -> u32 {
    rand::random::<u32>()
}

} // verus!
