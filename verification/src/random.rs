//! Random numbers as the `rand` crate and the operating system provide them.
//! Nothing in this file is proved, and nothing is said of which numbers come:
//! each function states what holds of every outcome of the call that its
//! body makes.

use rand::rngs::StdRng;
use vstd::prelude::*;

verus! {

/// Bytes in the seed of a generator.
pub const SEED_SIZE: usize = 32;

/// The error of a source of randomness, carried through and never read here.
#[verifier::external_type_specification]
#[verifier::external_body]
pub struct ExRandError(rsa::rand_core::Error);

/// The standard generator of `rand`, carried through and never read here.
#[verifier::external_type_specification]
#[verifier::external_body]
pub struct ExStdRng(StdRng);

/// `SeedableRng::from_seed`: the generator that a seed of 32 bytes gives.
#[verifier::external_body]
pub(crate) fn std_rng_from_seed(seed: [u8; 32]) -> StdRng {
    <StdRng as rand::SeedableRng>::from_seed(seed)
}

/// `RngCore::try_fill_bytes` of `OsRng`: fills `dest` from the operating
/// system and keeps its length, or fails where the operating system has no
/// entropy to give. Which of the two happens is the operating system's.
#[verifier::external_body]
pub(crate) fn os_rng_try_fill_bytes(dest: &mut [u8]) -> (r: Result<(), rsa::rand_core::Error>)
    ensures
        final(dest)@.len() == old(dest)@.len(),
{
    rsa::rand_core::RngCore::try_fill_bytes(&mut rsa::rand_core::OsRng, dest)
}

/// `RngCore::fill_bytes` of the standard generator: overwrites every byte of
/// `dest` and keeps its length.
#[verifier::external_body]
pub(crate) fn std_rng_fill_bytes(rng: &mut StdRng, dest: &mut [u8])
    ensures
        final(dest)@.len() == old(dest)@.len(),
{
    rand::RngCore::fill_bytes(rng, dest)
}

/// `Rng::gen` for one byte: any byte may come.
#[verifier::external_body]
pub(crate) fn std_rng_gen_u8(rng: &mut StdRng) -> u8 {
    rand::Rng::gen::<u8>(rng)
}

/// `Rng::gen_range` over `low..=high`: a number of that range. The range
/// must hold a number, or the call panics.
#[verifier::external_body]
pub(crate) fn std_rng_gen_range_u32(rng: &mut StdRng, low: u32, high: u32) -> (n: u32)
    requires
        low <= high,
    ensures
        low <= n <= high,
{
    rand::Rng::gen_range(rng, low..=high)
}

/// `Rng::gen_range` over `low..=high`: a number of that range. The range
/// must hold a number, or the call panics.
#[verifier::external_body]
pub(crate) fn std_rng_gen_range_u64(rng: &mut StdRng, low: u64, high: u64) -> (n: u64)
    requires
        low <= high,
    ensures
        low <= n <= high,
{
    rand::Rng::gen_range(rng, low..=high)
}

} // verus!
