//! The worker that opens.

use super::{
    concat_chunks, joined, lemma_joined_push, open_chunks, AesError, Cipher, CipherContext,
    CryptoBase, KEY_LENGTH, SEALED_CHUNK_SIZE,
};
use crate::cipher::TAG_SIZE;
use crate::tools::config::{AppConfig, EncryptionLevel};
use vstd::prelude::*;
use vstd::slice::slice_subrange;

verus! {

/// Opens ciphertexts under one key and nonce.
#[derive(Clone)]
pub struct Decryptor {
    pub(crate) base: CryptoBase,
}

impl View for Decryptor {
    type V = CipherContext;

    closed spec fn view(&self) -> CipherContext {
        self.base@
    }
}

impl Decryptor {
    /// The liveness flag, which is set when the worker is made.
    pub open spec fn spec_is_alive(&self) -> bool {
        self@.alive
    }

    /// A worker for `key` and `nonce`. Without a level it takes the
    /// configuration's, and it opens chunk by chunk where the configuration
    /// asks for parallel processing.
    pub fn new(level: Option<EncryptionLevel>, key: Vec<u8>, nonce: Vec<u8>, config: &AppConfig) -> (d:
        Decryptor)
        ensures
            d@ == (CipherContext {
                alive: true,
                level: match level {
                    Some(l) => l,
                    None => config.parameters.encryption_level,
                },
                key: key@,
                nonce: nonce@,
                chunked: config.features.parallel_processing,
            }),
            d.spec_is_alive(),
    {
        let level = match level {
            Some(l) => l,
            None => config.parameters.encryption_level,
        };
        Decryptor {
            base: CryptoBase {
                is_alive: true,
                level,
                key,
                nonce,
                has_parallel_processing: config.features.parallel_processing,
            },
        }
    }

    /// Whether the worker is alive. Nothing depends on it.
    pub fn is_alive(&self) -> (alive: bool)
        ensures
            alive == self.spec_is_alive(),
    {
        self.base.is_alive
    }

    /// Opens `data`. The call fails with `InvalidKeyLength` exactly when the
    /// nonce or the key has the wrong length, and with `AesGcmError` exactly
    /// when the lengths are right and the ciphertext, or one chunk of it,
    /// is rejected. Bytes that are fewer than a tag are rejected. The message
    /// is a tag shorter than its ciphertext, and a tag shorter for each
    /// sealed chunk where it is opened in chunks.
    pub fn decrypt(&self, data: &[u8]) -> (r: Result<Vec<u8>, AesError>)
        ensures
            match r {
                Ok(opened) => {
                    &&& self@.valid()
                    &&& self@.opened(data@) == Some(opened@)
                    &&& !self@.chunked ==> opened@.len() + TAG_SIZE == data@.len()
                    &&& self@.chunked ==> opened@.len() + TAG_SIZE * ((data@.len()
                        + SEALED_CHUNK_SIZE - 1) / (SEALED_CHUNK_SIZE as int)) == data@.len()
                },
                Err(e) => if self@.valid() {
                    self@.opened(data@) is None && e is AesGcmError
                } else {
                    e is InvalidKeyLength
                },
            },
            0 < data@.len() < TAG_SIZE ==> r is Err,
            !self@.chunked && data@.len() < TAG_SIZE ==> r is Err,
    {
        self.decrypt_aes_gcm(data)
    }

    /// Opens `buffer` where it stands: on success it holds the message, on
    /// failure it is unchanged.
    pub fn process_buffer_or_bit(&self, buffer: &mut Vec<u8>) -> (r: Result<(), AesError>)
        ensures
            match r {
                Ok(()) => {
                    &&& self@.valid()
                    &&& self@.opened(old(buffer)@) == Some(final(buffer)@)
                    &&& !self@.chunked ==> final(buffer)@.len() + TAG_SIZE == old(buffer)@.len()
                    &&& self@.chunked ==> final(buffer)@.len() + TAG_SIZE * ((old(buffer)@.len()
                        + SEALED_CHUNK_SIZE - 1) / (SEALED_CHUNK_SIZE as int)) == old(
                        buffer,
                    )@.len()
                },
                Err(e) => {
                    &&& final(buffer)@ == old(buffer)@
                    &&& if self@.valid() {
                        self@.opened(old(buffer)@) is None && e is AesGcmError
                    } else {
                        e is InvalidKeyLength
                    }
                },
            },
    {
        match self.decrypt(buffer.as_slice()) {
            Ok(opened) => {
                *buffer = opened;
                Ok(())
            },
            Err(e) => Err(e),
        }
    }

    fn decrypt_aes_gcm(&self, data: &[u8]) -> (r: Result<Vec<u8>, AesError>)
        ensures
            match r {
                Ok(opened) => {
                    &&& self@.valid()
                    &&& self@.opened(data@) == Some(opened@)
                    &&& !self@.chunked ==> opened@.len() + TAG_SIZE == data@.len()
                    &&& self@.chunked ==> opened@.len() + TAG_SIZE * ((data@.len()
                        + SEALED_CHUNK_SIZE - 1) / (SEALED_CHUNK_SIZE as int)) == data@.len()
                },
                Err(e) => if self@.valid() {
                    self@.opened(data@) is None && e is AesGcmError
                } else {
                    e is InvalidKeyLength
                },
            },
            0 < data@.len() < TAG_SIZE ==> r is Err,
            !self@.chunked && data@.len() < TAG_SIZE ==> r is Err,
    {
        if self.base.nonce.len() != KEY_LENGTH {
            return Err(AesError::InvalidKeyLength);
        }
        let cipher = match Cipher::new(self.base.level, self.base.key.as_slice()) {
            Ok(c) => c,
            Err(e) => {
                return Err(AesError::from(e));
            },
        };
        let nonce = self.base.nonce.as_slice();
        if self.base.has_parallel_processing {
            let ghost key = self.base.key@;
            let mut parts: Vec<Vec<u8>> = Vec::new();
            let mut pos: usize = 0;
            proof {
                assert(data@.skip(0) =~= data@);
                match open_chunks(key, nonce@, data@) {
                    Some(t) => {
                        assert(joined(parts@) + t =~= t);
                    },
                    None => {},
                }
            }
            while pos < data.len()
                invariant
                    pos <= data.len(),
                    nonce@.len() == KEY_LENGTH,
                    cipher.key() == key,
                    self@.valid(),
                    self@.chunked,
                    pos < data.len() ==> pos % SEALED_CHUNK_SIZE == 0,
                    joined(parts@).len() + TAG_SIZE * ((pos + SEALED_CHUNK_SIZE - 1) / (
                    SEALED_CHUNK_SIZE as int)) == pos,
                    self@.key == key,
                    self@.nonce == nonce@,
                    open_chunks(key, nonce@, data@) == (match open_chunks(
                        key,
                        nonce@,
                        data@.skip(pos as int),
                    ) {
                        Some(tail) => Some(joined(parts@) + tail),
                        None => None,
                    }),
                decreases data.len() - pos,
            {
                let end: usize = if data.len() - pos > SEALED_CHUNK_SIZE {
                    pos + SEALED_CHUNK_SIZE
                } else {
                    data.len()
                };
                let chunk = slice_subrange(data, pos, end);
                let ghost rest = data@.skip(pos as int);
                let ghost before = joined(parts@);
                proof {
                    if rest.len() <= SEALED_CHUNK_SIZE {
                        assert(chunk@ =~= rest);
                    } else {
                        assert(chunk@ =~= rest.take(SEALED_CHUNK_SIZE as int));
                        assert(rest.skip(SEALED_CHUNK_SIZE as int) =~= data@.skip(end as int));
                    }
                }
                match cipher.unseal(nonce, chunk) {
                    Ok(opened) => {
                        proof {
                            lemma_joined_push(parts@, opened);
                            if rest.len() <= SEALED_CHUNK_SIZE {
                                assert(data@.skip(end as int) =~= Seq::<u8>::empty());
                                assert((before + opened@) + Seq::<u8>::empty() =~= before
                                    + opened@);
                            } else {
                                match open_chunks(key, nonce@, data@.skip(end as int)) {
                                    Some(tail) => {
                                        assert(before + (opened@ + tail) =~= (before + opened@)
                                            + tail);
                                    },
                                    None => {},
                                }
                            }
                        }
                        parts.push(opened);
                    },
                    Err(e) => {
                        proof {
                            assert(rest.len() > 0);
                            assert(open_chunks(key, nonce@, rest) is None);
                        }
                        return Err(AesError::from(e));
                    },
                }
                pos = end;
            }
            proof {
                assert(data@.skip(pos as int) =~= Seq::<u8>::empty());
                assert(joined(parts@) + Seq::<u8>::empty() =~= joined(parts@));
            }
            Ok(concat_chunks(&parts))
        } else {
            match cipher.unseal(nonce, data) {
                Ok(opened) => Ok(opened),
                Err(e) => Err(AesError::from(e)),
            }
        }
    }
}

} // verus!
