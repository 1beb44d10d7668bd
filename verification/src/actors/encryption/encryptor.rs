//! The worker that seals.

use super::{
    concat_chunks, joined, lemma_joined_push, lemma_open_chunks_append, open_chunks, seal_chunks,
    AesError, Cipher, CipherContext, CryptoBase, CHUNK_SIZE, KEY_LENGTH, SEALED_CHUNK_SIZE,
};
use crate::cipher::TAG_SIZE;
use crate::tools::config::{AppConfig, EncryptionLevel};
use vstd::prelude::*;
use vstd::slice::slice_subrange;

verus! {

/// Seals messages under one key and nonce.
#[derive(Clone)]
pub struct Encryptor {
    pub(crate) base: CryptoBase,
}

impl View for Encryptor {
    type V = CipherContext;

    closed spec fn view(&self) -> CipherContext {
        self.base@
    }
}

impl Encryptor {
    /// The liveness flag, which is set when the worker is made.
    pub open spec fn spec_is_alive(&self) -> bool {
        self@.alive
    }

    /// A worker for `key` and `nonce`. Without a level it takes the
    /// configuration's, and it seals in chunks where the configuration asks
    /// for parallel processing.
    pub fn new(level: Option<EncryptionLevel>, key: Vec<u8>, nonce: Vec<u8>, config: &AppConfig) -> (e:
        Encryptor)
        ensures
            e@ == (CipherContext {
                alive: true,
                level: match level {
                    Some(l) => l,
                    None => config.parameters.encryption_level,
                },
                key: key@,
                nonce: nonce@,
                chunked: config.features.parallel_processing,
            }),
            e.spec_is_alive(),
    {
        let level = match level {
            Some(l) => l,
            None => config.parameters.encryption_level,
        };
        Encryptor {
            base: CryptoBase {
                is_alive: true,
                level,
                key,
                nonce,
                has_parallel_processing: config.features.parallel_processing,
            },
        }
    }

    /// Whether the worker is alive. Nothing depends on it.
    pub fn is_alive(&self) -> (alive: bool)
        ensures
            alive == self.spec_is_alive(),
    {
        self.base.is_alive
    }

    /// Seals `data`. The call fails with `InvalidKeyLength` exactly when the
    /// nonce or the key has the wrong length, and with `AesGcmError` exactly
    /// when the lengths are right and the cipher does not take a message
    /// this long in one piece. The ciphertext that comes back opens to
    /// `data` under the same context. It is a tag longer than `data` in one
    /// piece, and a tag longer for each chunk where it is sealed in chunks.
    pub fn encrypt(&self, data: &[u8]) -> (r: Result<Vec<u8>, AesError>)
        ensures
            match r {
                Ok(sealed) => {
                    &&& self@.valid()
                    &&& self@.accepts(data@)
                    &&& sealed@ == self@.sealed(data@)
                    &&& self@.opened(sealed@) == Some(data@)
                    &&& !self@.chunked ==> sealed@.len() == data@.len() + TAG_SIZE
                    &&& self@.chunked ==> sealed@.len() == data@.len() + TAG_SIZE * ((data@.len()
                        + CHUNK_SIZE - 1) / (CHUNK_SIZE as int))
                    &&& sealed@.len() == self@.sealed_len(data@.len())
                },
                Err(e) => if self@.valid() {
                    !self@.accepts(data@) && e is AesGcmError
                } else {
                    e is InvalidKeyLength
                },
            },
    {
        self.encrypt_aes_gcm(data)
    }

    /// Seals `buffer` where it stands: on success it holds its own
    /// ciphertext, on failure it is unchanged.
    pub fn process_buffer_or_bit(&self, buffer: &mut Vec<u8>) -> (r: Result<(), AesError>)
        ensures
            match r {
                Ok(()) => {
                    &&& self@.valid()
                    &&& self@.accepts(old(buffer)@)
                    &&& final(buffer)@ == self@.sealed(old(buffer)@)
                    &&& self@.opened(final(buffer)@) == Some(old(buffer)@)
                    &&& !self@.chunked ==> final(buffer)@.len() == old(buffer)@.len() + TAG_SIZE
                    &&& self@.chunked ==> final(buffer)@.len() == old(buffer)@.len() + TAG_SIZE * ((
                    old(buffer)@.len() + CHUNK_SIZE - 1) / (CHUNK_SIZE as int))
                    &&& final(buffer)@.len() == self@.sealed_len(old(buffer)@.len())
                },
                Err(e) => {
                    &&& final(buffer)@ == old(buffer)@
                    &&& if self@.valid() {
                        !self@.accepts(old(buffer)@) && e is AesGcmError
                    } else {
                        e is InvalidKeyLength
                    }
                },
            },
    {
        match self.encrypt(buffer.as_slice()) {
            Ok(sealed) => {
                *buffer = sealed;
                Ok(())
            },
            Err(e) => Err(e),
        }
    }

    fn encrypt_aes_gcm(&self, data: &[u8]) -> (r: Result<Vec<u8>, AesError>)
        ensures
            match r {
                Ok(sealed) => {
                    &&& self@.valid()
                    &&& self@.accepts(data@)
                    &&& sealed@ == self@.sealed(data@)
                    &&& self@.opened(sealed@) == Some(data@)
                    &&& !self@.chunked ==> sealed@.len() == data@.len() + TAG_SIZE
                    &&& self@.chunked ==> sealed@.len() == data@.len() + TAG_SIZE * ((data@.len()
                        + CHUNK_SIZE - 1) / (CHUNK_SIZE as int))
                    &&& sealed@.len() == self@.sealed_len(data@.len())
                },
                Err(e) => if self@.valid() {
                    !self@.accepts(data@) && e is AesGcmError
                } else {
                    e is InvalidKeyLength
                },
            },
    {
        if self.base.nonce.len() != KEY_LENGTH {
            return Err(AesError::InvalidKeyLength);
        }
        let cipher = match Cipher::new(self.base.level, self.base.key.as_slice()) {
            Ok(c) => c,
            Err(e) => {
                return Err(AesError::from(e));
            },
        };
        let nonce = self.base.nonce.as_slice();
        if self.base.has_parallel_processing {
            let ghost key = self.base.key@;
            let mut parts: Vec<Vec<u8>> = Vec::new();
            let mut pos: usize = 0;
            proof {
                assert(data@.skip(0) =~= data@);
                assert(data@.take(0) =~= Seq::<u8>::empty());
            }
            while pos < data.len()
                invariant
                    pos <= data.len(),
                    nonce@.len() == KEY_LENGTH,
                    cipher.key() == key,
                    pos < data.len() ==> joined(parts@).len() % (SEALED_CHUNK_SIZE as nat) == 0,
                    pos < data.len() ==> pos % CHUNK_SIZE == 0,
                    joined(parts@).len() == pos + TAG_SIZE * ((pos + CHUNK_SIZE - 1) / (
                    CHUNK_SIZE as int)),
                    seal_chunks(key, nonce@, data@) == joined(parts@) + seal_chunks(
                        key,
                        nonce@,
                        data@.skip(pos as int),
                    ),
                    open_chunks(key, nonce@, joined(parts@)) == Some(data@.take(pos as int)),
                decreases data.len() - pos,
            {
                let end: usize = if data.len() - pos > CHUNK_SIZE {
                    pos + CHUNK_SIZE
                } else {
                    data.len()
                };
                let chunk = slice_subrange(data, pos, end);
                let ghost rest = data@.skip(pos as int);
                let ghost before = joined(parts@);
                proof {
                    if rest.len() <= CHUNK_SIZE {
                        assert(chunk@ =~= rest);
                    } else {
                        assert(chunk@ =~= rest.take(CHUNK_SIZE as int));
                        assert(rest.skip(CHUNK_SIZE as int) =~= data@.skip(end as int));
                    }
                }
                match cipher.seal(nonce, chunk) {
                    Ok(sealed) => {
                        proof {
                            lemma_joined_push(parts@, sealed);
                            lemma_open_chunks_append(
                                key,
                                nonce@,
                                before,
                                data@.take(pos as int),
                                sealed@,
                                chunk@,
                            );
                            assert(data@.take(pos as int) + chunk@ =~= data@.take(end as int));
                            if rest.len() <= CHUNK_SIZE {
                                assert(data@.skip(end as int) =~= Seq::<u8>::empty());
                                assert(before + sealed@ + Seq::<u8>::empty() =~= before
                                    + sealed@);
                            } else {
                                assert(before + (sealed@ + seal_chunks(
                                    key,
                                    nonce@,
                                    data@.skip(end as int),
                                )) =~= (before + sealed@) + seal_chunks(
                                    key,
                                    nonce@,
                                    data@.skip(end as int),
                                ));
                            }
                        }
                        parts.push(sealed);
                    },
                    Err(e) => {
                        return Err(AesError::from(e));
                    },
                }
                pos = end;
            }
            proof {
                assert(data@.skip(pos as int) =~= Seq::<u8>::empty());
                assert(joined(parts@) + Seq::<u8>::empty() =~= joined(parts@));
                assert(data@.take(pos as int) =~= data@);
            }
            Ok(concat_chunks(&parts))
        } else {
            match cipher.seal(nonce, data) {
                Ok(sealed) => Ok(sealed),
                Err(e) => Err(AesError::from(e)),
            }
        }
    }
}

} // verus!
