//! AES-GCM as the `aes-gcm` crate provides it. Nothing in this file is
//! proved: each function states what the crate's source shows of the call
//! that its body makes.

use vstd::prelude::*;

verus! {

/// Bytes of authentication tag that sealing appends to a message.
pub const TAG_SIZE: usize = 16;

/// Bytes in a nonce of the cipher.
pub const NONCE_SIZE: usize = 12;

/// Longest message, in bytes, that the cipher seals in one call.
pub const MAX_MESSAGE_SIZE: u64 = 0x10_0000_0000;

/// The error of `aes_gcm`, which says nothing of its cause.
#[verifier::external_type_specification]
#[verifier::external_body]
pub struct ExAeadError(aes_gcm::Error);

/// The error of `KeyInit::new_from_slice`.
#[verifier::external_type_specification]
#[verifier::external_body]
pub struct ExInvalidLength(aes::cipher::InvalidLength);

/// An `Aes128Gcm` that was made from a key.
#[verifier::external_body]
pub struct Aes128GcmCipher {
    inner: aes_gcm::Aes128Gcm,
}

/// An `Aes256Gcm` that was made from a key.
#[verifier::external_body]
pub struct Aes256GcmCipher {
    inner: aes_gcm::Aes256Gcm,
}

/// The ciphertext, tag included, that AES-GCM gives for a key, a nonce and a
/// message, with no associated data.
pub uninterp spec fn aes_gcm_seal(key: Seq<u8>, nonce: Seq<u8>, plaintext: Seq<u8>) -> Seq<u8>;

/// The message that AES-GCM recovers from a ciphertext, or `None` where it
/// rejects the ciphertext.
pub uninterp spec fn aes_gcm_open(key: Seq<u8>, nonce: Seq<u8>, ciphertext: Seq<u8>) -> Option<
    Seq<u8>,
>;

/// The key that a 128-bit cipher was made from.
pub uninterp spec fn aes128_gcm_key(cipher: Aes128GcmCipher) -> Seq<u8>;

/// The key that a 256-bit cipher was made from.
pub uninterp spec fn aes256_gcm_key(cipher: Aes256GcmCipher) -> Seq<u8>;

/// `Aes128Gcm::new_from_slice`: fails exactly when the key is not 16 bytes
/// long, and otherwise gives a cipher for that key.
#[verifier::external_body]
pub(crate) fn aes128_gcm_new(key: &[u8]) -> (r: Result<
    Aes128GcmCipher,
    aes::cipher::InvalidLength,
>)
    ensures
        r is Ok <==> key@.len() == 16,
        r matches Ok(cipher) ==> aes128_gcm_key(cipher) == key@,
{
    let inner = <aes_gcm::Aes128Gcm as aes_gcm::KeyInit>::new_from_slice(key)?;
    Ok(Aes128GcmCipher { inner })
}

/// `Aes256Gcm::new_from_slice`: fails exactly when the key is not 32 bytes
/// long, and otherwise gives a cipher for that key.
#[verifier::external_body]
pub(crate) fn aes256_gcm_new(key: &[u8]) -> (r: Result<
    Aes256GcmCipher,
    aes::cipher::InvalidLength,
>)
    ensures
        r is Ok <==> key@.len() == 32,
        r matches Ok(cipher) ==> aes256_gcm_key(cipher) == key@,
{
    let inner = <aes_gcm::Aes256Gcm as aes_gcm::KeyInit>::new_from_slice(key)?;
    Ok(Aes256GcmCipher { inner })
}

/// `Aead::encrypt` of `Aes128Gcm`. It fails exactly when the message is longer
/// than `MAX_MESSAGE_SIZE`. The ciphertext is the message's length plus a
/// tag, and the same key and nonce open it to the message again. The nonce
/// must have 12 bytes: the conversion to the crate's nonce type panics otherwise.
#[verifier::external_body]
pub(crate) fn aes128_gcm_encrypt(cipher: &Aes128GcmCipher, nonce: &[u8], plaintext: &[u8]) -> (r:
    Result<Vec<u8>, aes_gcm::Error>)
    requires
        nonce@.len() == NONCE_SIZE,
    ensures
        r is Ok <==> plaintext@.len() <= MAX_MESSAGE_SIZE,
        r matches Ok(sealed) ==> {
            &&& sealed@ == aes_gcm_seal(aes128_gcm_key(*cipher), nonce@, plaintext@)
            &&& sealed@.len() == plaintext@.len() + TAG_SIZE
            &&& aes_gcm_open(aes128_gcm_key(*cipher), nonce@, sealed@) == Some(plaintext@)
        },
{
    aes_gcm::aead::Aead::encrypt(&cipher.inner, aes_gcm::Nonce::from_slice(nonce), plaintext)
}

/// `Aead::encrypt` of `Aes256Gcm`, with the contract of its 128-bit twin.
#[verifier::external_body]
pub(crate) fn aes256_gcm_encrypt(cipher: &Aes256GcmCipher, nonce: &[u8], plaintext: &[u8]) -> (r:
    Result<Vec<u8>, aes_gcm::Error>)
    requires
        nonce@.len() == NONCE_SIZE,
    ensures
        r is Ok <==> plaintext@.len() <= MAX_MESSAGE_SIZE,
        r matches Ok(sealed) ==> {
            &&& sealed@ == aes_gcm_seal(aes256_gcm_key(*cipher), nonce@, plaintext@)
            &&& sealed@.len() == plaintext@.len() + TAG_SIZE
            &&& aes_gcm_open(aes256_gcm_key(*cipher), nonce@, sealed@) == Some(plaintext@)
        },
{
    aes_gcm::aead::Aead::encrypt(&cipher.inner, aes_gcm::Nonce::from_slice(nonce), plaintext)
}

/// `Aead::decrypt` of `Aes128Gcm`. It gives the message that the ciphertext
/// opens to, a tag shorter than the ciphertext, and fails on every
/// ciphertext that is shorter than a tag or does not authenticate. The nonce
/// must have 12 bytes: the conversion to the crate's nonce type panics otherwise.
#[verifier::external_body]
pub(crate) fn aes128_gcm_decrypt(cipher: &Aes128GcmCipher, nonce: &[u8], ciphertext: &[u8]) -> (r:
    Result<Vec<u8>, aes_gcm::Error>)
    requires
        nonce@.len() == NONCE_SIZE,
    ensures
        match r {
            Ok(opened) => {
                &&& aes_gcm_open(aes128_gcm_key(*cipher), nonce@, ciphertext@) == Some(opened@)
                &&& opened@.len() + TAG_SIZE == ciphertext@.len()
            },
            Err(_) => aes_gcm_open(aes128_gcm_key(*cipher), nonce@, ciphertext@) is None,
        },
        ciphertext@.len() < TAG_SIZE ==> r is Err,
{
    aes_gcm::aead::Aead::decrypt(&cipher.inner, aes_gcm::Nonce::from_slice(nonce), ciphertext)
}

/// `Aead::decrypt` of `Aes256Gcm`, with the contract of its 128-bit twin.
#[verifier::external_body]
pub(crate) fn aes256_gcm_decrypt(cipher: &Aes256GcmCipher, nonce: &[u8], ciphertext: &[u8]) -> (r:
    Result<Vec<u8>, aes_gcm::Error>)
    requires
        nonce@.len() == NONCE_SIZE,
    ensures
        match r {
            Ok(opened) => {
                &&& aes_gcm_open(aes256_gcm_key(*cipher), nonce@, ciphertext@) == Some(opened@)
                &&& opened@.len() + TAG_SIZE == ciphertext@.len()
            },
            Err(_) => aes_gcm_open(aes256_gcm_key(*cipher), nonce@, ciphertext@) is None,
        },
        ciphertext@.len() < TAG_SIZE ==> r is Err,
{
    aes_gcm::aead::Aead::decrypt(&cipher.inner, aes_gcm::Nonce::from_slice(nonce), ciphertext)
}

} // verus!
