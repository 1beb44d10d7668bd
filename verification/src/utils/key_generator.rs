//! Keys and nonces drawn from a generator.

use crate::random::std_rng_gen_u8;
use crate::tools::config::EncryptionLevel;
use rand::rngs::StdRng;
use vstd::prelude::*;

verus! {

/// Bytes in a nonce.
pub const NONCE_SIZE: usize = 12;

/// `count` bytes drawn one by one.
pub(crate) fn random_bytes(rng: &mut StdRng, count: usize) -> (bytes: Vec<u8>)
    ensures
        bytes@.len() == count,
{
    let mut bytes: Vec<u8> = Vec::new();
    while bytes.len() < count
        invariant
            bytes@.len() <= count,
        decreases count - bytes@.len(),
    {
        let b = std_rng_gen_u8(rng);
        bytes.push(b);
    }
    bytes
}

/// A key for the cipher of `level`: 16 random bytes for the first level and
/// 32 for the second.
pub fn generate_aes_key(level: EncryptionLevel, rng: &mut StdRng) -> (key: Vec<u8>)
    ensures
        key@.len() == level.spec_key_size(),
{
    let key_size = match level {
        EncryptionLevel::Level1 => 16,
        EncryptionLevel::Level2 => 32,
    };
    random_bytes(rng, key_size)
}

/// A nonce: 12 random bytes.
pub fn generate_nonce(rng: &mut StdRng) -> (nonce: Vec<u8>)
    ensures
        nonce@.len() == NONCE_SIZE,
{
    random_bytes(rng, NONCE_SIZE)
}

} // verus!
