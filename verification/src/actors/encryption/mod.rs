//! What the encrypting and the decrypting worker share: the cipher context,
//! the errors, and the chunked framing of ciphertext.

pub mod decryptor;
pub mod encryptor;

use crate::actors::memory::secure_key_value_store::SecureStoreError;
use crate::cipher::{
    aes128_gcm_decrypt, aes128_gcm_encrypt, aes128_gcm_key, aes128_gcm_new, aes256_gcm_decrypt,
    aes256_gcm_encrypt, aes256_gcm_key, aes256_gcm_new, aes_gcm_open, aes_gcm_seal,
    Aes128GcmCipher, Aes256GcmCipher, MAX_MESSAGE_SIZE, NONCE_SIZE, TAG_SIZE,
};
use crate::tools::config::EncryptionLevel;
use std::path::PathBuf;
use vstd::prelude::*;
use vstd::std_specs::convert::FromSpecImpl;

verus! {

/// A path of the file system, carried through and never read here.
#[verifier::external_type_specification]
#[verifier::external_body]
pub struct ExPathBuf(PathBuf);

/// An error of input or output, carried through and never read here.
#[verifier::external_type_specification]
#[verifier::external_body]
pub struct ExIoError(std::io::Error);

/// Everything that can go wrong between a caller and the cipher.
#[derive(Debug)]
pub enum AesError {
    /// The cipher refused the message or rejected the ciphertext.
    AesGcmError(aes_gcm::Error),
    /// The store failed to seal or to open a value.
    SecureStoreError(SecureStoreError),
    /// The key or the nonce has the wrong length.
    InvalidKeyLength,
    /// Reading or writing failed.
    IoError(std::io::Error),
    /// A payload could not be encoded.
    SerializeError(String),
    /// Bytes did not decode to a payload.
    DeserializeError(String),
}

impl From<aes_gcm::Error> for AesError {
    fn from(err: aes_gcm::Error) -> (e: AesError) {
        AesError::AesGcmError(err)
    }
}

impl FromSpecImpl<aes_gcm::Error> for AesError {
    open spec fn obeys_from_spec() -> bool {
        true
    }

    open spec fn from_spec(err: aes_gcm::Error) -> AesError {
        AesError::AesGcmError(err)
    }
}

impl From<aes::cipher::InvalidLength> for AesError {
    fn from(_err: aes::cipher::InvalidLength) -> (e: AesError) {
        AesError::InvalidKeyLength
    }
}

impl FromSpecImpl<aes::cipher::InvalidLength> for AesError {
    open spec fn obeys_from_spec() -> bool {
        true
    }

    open spec fn from_spec(_err: aes::cipher::InvalidLength) -> AesError {
        AesError::InvalidKeyLength
    }
}

impl From<std::io::Error> for AesError {
    fn from(err: std::io::Error) -> (e: AesError) {
        AesError::IoError(err)
    }
}

impl FromSpecImpl<std::io::Error> for AesError {
    open spec fn obeys_from_spec() -> bool {
        true
    }

    open spec fn from_spec(err: std::io::Error) -> AesError {
        AesError::IoError(err)
    }
}

impl From<SecureStoreError> for AesError {
    fn from(err: SecureStoreError) -> (e: AesError) {
        AesError::SecureStoreError(err)
    }
}

impl FromSpecImpl<SecureStoreError> for AesError {
    open spec fn obeys_from_spec() -> bool {
        true
    }

    open spec fn from_spec(err: SecureStoreError) -> AesError {
        AesError::SecureStoreError(err)
    }
}

/// A unit of work for an encrypting or decrypting worker.
pub enum Input {
    /// A file, transformed where it lies.
    File(PathBuf),
    /// Bytes held in memory.
    Buffer(Vec<u8>),
    /// One byte.
    Bit(u8),
}

/// What a worker does with a unit of work once it has looked at it.
pub enum Work {
    /// Read the file, transform its bytes and write them back.
    File(PathBuf),
    /// Transform these bytes.
    Buffer(Vec<u8>),
}

/// What a worker hands to the runtime for an input: a file and a buffer stand
/// for themselves, a single byte becomes a buffer of length one, and no input
/// asks for nothing.
pub fn work_for(input: Option<Input>) -> (work: Option<Work>)
    ensures
        match (input, work) {
            (None, None) => true,
            (Some(Input::File(path)), Some(Work::File(p))) => p == path,
            (Some(Input::Buffer(data)), Some(Work::Buffer(d))) => d == data,
            (Some(Input::Bit(bit)), Some(Work::Buffer(d))) => d@ == seq![bit],
            _ => false,
        },
{
    match input {
        None => None,
        Some(Input::File(path)) => Some(Work::File(path)),
        Some(Input::Buffer(data)) => Some(Work::Buffer(data)),
        Some(Input::Bit(bit)) => {
            let mut data: Vec<u8> = Vec::new();
            data.push(bit);
            Some(Work::Buffer(data))
        },
    }
}

/// What a cipher context is to a contract: the liveness flag, the level,
/// the key, the nonce, and whether messages are sealed chunk by chunk.
pub ghost struct CipherContext {
    pub alive: bool,
    pub level: EncryptionLevel,
    pub key: Seq<u8>,
    pub nonce: Seq<u8>,
    pub chunked: bool,
}

impl CipherContext {
    /// The nonce and the key have the lengths that the level's cipher takes.
    pub open spec fn valid(self) -> bool {
        &&& self.nonce.len() == KEY_LENGTH
        &&& self.key.len() == self.level.spec_key_size()
    }

    /// The cipher takes a message of this length in this mode.
    pub open spec fn accepts(self, data: Seq<u8>) -> bool {
        self.chunked || data.len() <= MAX_MESSAGE_SIZE
    }

    /// The ciphertext of a message under this context.
    pub open spec fn sealed(self, data: Seq<u8>) -> Seq<u8> {
        if self.chunked {
            seal_chunks(self.key, self.nonce, data)
        } else {
            aes_gcm_seal(self.key, self.nonce, data)
        }
    }

    /// The length of the ciphertext of a message of `length` bytes: the
    /// message and one tag in one piece, the message and one tag for each
    /// chunk where messages are sealed in chunks.
    pub open spec fn sealed_len(self, length: nat) -> int {
        if self.chunked {
            length + TAG_SIZE * ((length + CHUNK_SIZE - 1) / (CHUNK_SIZE as int))
        } else {
            length + TAG_SIZE
        }
    }

    /// The message that a ciphertext opens to under this context, if it does.
    pub open spec fn opened(self, data: Seq<u8>) -> Option<Seq<u8>> {
        if self.chunked {
            open_chunks(self.key, self.nonce, data)
        } else {
            aes_gcm_open(self.key, self.nonce, data)
        }
    }
}

/// Key, nonce, level and mode of a worker. It is made once and never changed.
/// The one nonce serves every call and, where messages are sealed in chunks,
/// every chunk: two sealed messages, or two chunks, that start alike show it.
#[derive(Clone)]
pub struct CryptoBase {
    pub(crate) is_alive: bool,
    pub(crate) level: EncryptionLevel,
    pub(crate) key: Vec<u8>,
    pub(crate) nonce: Vec<u8>,
    pub(crate) has_parallel_processing: bool,
}

impl View for CryptoBase {
    type V = CipherContext;

    closed spec fn view(&self) -> CipherContext {
        CipherContext {
            alive: self.is_alive,
            level: self.level,
            key: self.key@,
            nonce: self.nonce@,
            chunked: self.has_parallel_processing,
        }
    }
}

impl CryptoBase {
    /// The liveness flag that the context was made with.
    pub open spec fn alive(&self) -> bool {
        self@.alive
    }
}

/// The cipher of a level, ready for its key.
pub(crate) enum Cipher {
    Aes128(Aes128GcmCipher),
    Aes256(Aes256GcmCipher),
}

impl Cipher {
    pub(crate) open spec fn key(self) -> Seq<u8> {
        match self {
            Cipher::Aes128(c) => aes128_gcm_key(c),
            Cipher::Aes256(c) => aes256_gcm_key(c),
        }
    }

    /// The cipher of `level` for `key`, which must have the level's key size.
    pub(crate) fn new(level: EncryptionLevel, key: &[u8]) -> (r: Result<
        Cipher,
        aes::cipher::InvalidLength,
    >)
        ensures
            r is Ok <==> key@.len() == level.spec_key_size(),
            r matches Ok(cipher) ==> cipher.key() == key@,
    {
        match level {
            EncryptionLevel::Level1 => match aes128_gcm_new(key) {
                Ok(c) => Ok(Cipher::Aes128(c)),
                Err(e) => Err(e),
            },
            EncryptionLevel::Level2 => match aes256_gcm_new(key) {
                Ok(c) => Ok(Cipher::Aes256(c)),
                Err(e) => Err(e),
            },
        }
    }

    /// Seals one message.
    pub(crate) fn seal(&self, nonce: &[u8], plaintext: &[u8]) -> (r: Result<
        Vec<u8>,
        aes_gcm::Error,
    >)
        requires
            nonce@.len() == NONCE_SIZE,
        ensures
            r is Ok <==> plaintext@.len() <= MAX_MESSAGE_SIZE,
            r matches Ok(sealed) ==> {
                &&& sealed@ == aes_gcm_seal(self.key(), nonce@, plaintext@)
                &&& sealed@.len() == plaintext@.len() + TAG_SIZE
                &&& aes_gcm_open(self.key(), nonce@, sealed@) == Some(plaintext@)
            },
    {
        match self {
            Cipher::Aes128(c) => aes128_gcm_encrypt(c, nonce, plaintext),
            Cipher::Aes256(c) => aes256_gcm_encrypt(c, nonce, plaintext),
        }
    }

    /// Opens one ciphertext.
    pub(crate) fn unseal(&self, nonce: &[u8], ciphertext: &[u8]) -> (r: Result<
        Vec<u8>,
        aes_gcm::Error,
    >)
        requires
            nonce@.len() == NONCE_SIZE,
        ensures
            match r {
                Ok(opened) => {
                    &&& aes_gcm_open(self.key(), nonce@, ciphertext@) == Some(opened@)
                    &&& opened@.len() + TAG_SIZE == ciphertext@.len()
                },
                Err(_) => aes_gcm_open(self.key(), nonce@, ciphertext@) is None,
            },
            ciphertext@.len() < TAG_SIZE ==> r is Err,
    {
        match self {
            Cipher::Aes128(c) => aes128_gcm_decrypt(c, nonce, ciphertext),
            Cipher::Aes256(c) => aes256_gcm_decrypt(c, nonce, ciphertext),
        }
    }
}

/// Length that the nonce of a cipher context must have.
pub const KEY_LENGTH: usize = 12;

/// Bytes of plaintext that one chunk holds when a message is sealed in chunks.
pub const CHUNK_SIZE: usize = 1024;

/// Bytes that a full chunk takes once it is sealed: the chunk and its tag.
pub const SEALED_CHUNK_SIZE: usize = 1040;

/// The ciphertext of a message sealed chunk by chunk: each run of
/// `CHUNK_SIZE` bytes is sealed by itself, under one key and nonce, and the
/// sealed chunks follow each other in the message's order.
pub open spec fn seal_chunks(key: Seq<u8>, nonce: Seq<u8>, data: Seq<u8>) -> Seq<u8>
    decreases data.len(),
{
    if data.len() == 0 {
        Seq::empty()
    } else if data.len() <= CHUNK_SIZE {
        aes_gcm_seal(key, nonce, data)
    } else {
        aes_gcm_seal(key, nonce, data.take(CHUNK_SIZE as int)) + seal_chunks(
            key,
            nonce,
            data.skip(CHUNK_SIZE as int),
        )
    }
}

/// The message that a chunked ciphertext opens to: each run of
/// `SEALED_CHUNK_SIZE` bytes is opened by itself, and the message is `None`
/// as soon as one of them is rejected.
pub open spec fn open_chunks(key: Seq<u8>, nonce: Seq<u8>, data: Seq<u8>) -> Option<Seq<u8>>
    decreases data.len(),
{
    if data.len() == 0 {
        Some(Seq::empty())
    } else if data.len() <= SEALED_CHUNK_SIZE {
        aes_gcm_open(key, nonce, data)
    } else {
        match aes_gcm_open(key, nonce, data.take(SEALED_CHUNK_SIZE as int)) {
            None => None,
            Some(head) => match open_chunks(key, nonce, data.skip(SEALED_CHUNK_SIZE as int)) {
                None => None,
                Some(tail) => Some(head + tail),
            },
        }
    }
}

/// The parts one after the other.
pub open spec fn joined(parts: Seq<Vec<u8>>) -> Seq<u8>
    decreases parts.len(),
{
    if parts.len() == 0 {
        Seq::empty()
    } else {
        joined(parts.drop_last()) + parts.last()@
    }
}

/// Joining one more part appends it.
pub(crate) proof fn lemma_joined_push(parts: Seq<Vec<u8>>, part: Vec<u8>)
    ensures
        joined(parts.push(part)) == joined(parts) + part@,
{
    assert(parts.push(part).drop_last() =~= parts);
}

/// The parts one after the other, in their order.
pub fn concat_chunks(parts: &Vec<Vec<u8>>) -> (whole: Vec<u8>)
    ensures
        whole@ == joined(parts@),
{
    let mut whole: Vec<u8> = Vec::new();
    let mut i: usize = 0;
    assert(parts@.take(0) =~= Seq::<Vec<u8>>::empty());
    while i < parts.len()
        invariant
            i <= parts@.len(),
            whole@ == joined(parts@.take(i as int)),
        decreases parts@.len() - i,
    {
        proof {
            lemma_joined_push(parts@.take(i as int), parts@[i as int]);
            assert(parts@.take(i as int).push(parts@[i as int]) =~= parts@.take(i + 1));
        }
        whole.extend_from_slice(parts[i].as_slice());
        i = i + 1;
    }
    assert(parts@.take(i as int) =~= parts@);
    whole
}

/// Opening a chunked ciphertext that is made of full sealed chunks followed
/// by one more sealed chunk gives the messages of both, one after the other.
pub(crate) proof fn lemma_open_chunks_append(
    key: Seq<u8>,
    nonce: Seq<u8>,
    sealed: Seq<u8>,
    opened: Seq<u8>,
    chunk: Seq<u8>,
    message: Seq<u8>,
)
    requires
        sealed.len() % (SEALED_CHUNK_SIZE as nat) == 0,
        open_chunks(key, nonce, sealed) == Some(opened),
        0 < chunk.len() <= SEALED_CHUNK_SIZE,
        aes_gcm_open(key, nonce, chunk) == Some(message),
    ensures
        open_chunks(key, nonce, sealed + chunk) == Some(opened + message),
    decreases sealed.len(),
{
    let whole = sealed + chunk;
    if sealed.len() == 0 {
        assert(whole =~= chunk);
        assert(opened =~= Seq::<u8>::empty());
        assert(opened + message =~= message);
    } else {
        assert(sealed.len() >= SEALED_CHUNK_SIZE);
        assert(whole.take(SEALED_CHUNK_SIZE as int) =~= sealed.take(SEALED_CHUNK_SIZE as int));
        assert(whole.skip(SEALED_CHUNK_SIZE as int) =~= sealed.skip(SEALED_CHUNK_SIZE as int)
            + chunk);
        if sealed.len() == SEALED_CHUNK_SIZE {
            assert(sealed.take(SEALED_CHUNK_SIZE as int) =~= sealed);
            assert(sealed.skip(SEALED_CHUNK_SIZE as int) + chunk =~= chunk);
        } else {
            let head = aes_gcm_open(key, nonce, sealed.take(SEALED_CHUNK_SIZE as int))->0;
            let tail = open_chunks(key, nonce, sealed.skip(SEALED_CHUNK_SIZE as int))->0;
            lemma_open_chunks_append(
                key,
                nonce,
                sealed.skip(SEALED_CHUNK_SIZE as int),
                tail,
                chunk,
                message,
            );
            assert(head + (tail + message) =~= (head + tail) + message);
        }
    }
}

/// The cipher seals a message to its length and a tag, and opens what it
/// sealed to the message again.
pub open spec fn seals_soundly(key: Seq<u8>, nonce: Seq<u8>, message: Seq<u8>) -> bool {
    &&& aes_gcm_seal(key, nonce, message).len() == message.len() + TAG_SIZE
    &&& aes_gcm_open(key, nonce, aes_gcm_seal(key, nonce, message)) == Some(message)
}

/// Sealing chunk by chunk and opening chunk by chunk give the message
/// back, whatever its length, where the cipher does so for each message of
/// at most one chunk.
pub proof fn lemma_chunked_round_trip(key: Seq<u8>, nonce: Seq<u8>, data: Seq<u8>)
    requires
        forall|chunk: Seq<u8>|
            chunk.len() <= CHUNK_SIZE ==> #[trigger] seals_soundly(key, nonce, chunk),
    ensures
        open_chunks(key, nonce, seal_chunks(key, nonce, data)) == Some(data),
        data.len() > 0 ==> seal_chunks(key, nonce, data).len() > 0,
    decreases data.len(),
{
    if data.len() == 0 {
        assert(data =~= Seq::<u8>::empty());
    } else if data.len() <= CHUNK_SIZE {
        assert(seals_soundly(key, nonce, data));
    } else {
        let head = data.take(CHUNK_SIZE as int);
        let rest = data.skip(CHUNK_SIZE as int);
        let sealed_head = aes_gcm_seal(key, nonce, head);
        let sealed_rest = seal_chunks(key, nonce, rest);
        assert(seals_soundly(key, nonce, head));
        lemma_chunked_round_trip(key, nonce, rest);
        let whole = sealed_head + sealed_rest;
        assert(whole.take(SEALED_CHUNK_SIZE as int) =~= sealed_head);
        assert(whole.skip(SEALED_CHUNK_SIZE as int) =~= sealed_rest);
        assert(head + rest =~= data);
    }
}

/// A message of one chunk is sealed to the same bytes chunk by chunk as in
/// one piece, and a ciphertext of one sealed chunk opens the same either
/// way: so far, and no further, what one mode seals the other opens.
pub proof fn lemma_single_chunk_modes_agree(key: Seq<u8>, nonce: Seq<u8>, data: Seq<u8>)
    ensures
        0 < data.len() <= CHUNK_SIZE ==> seal_chunks(key, nonce, data) == aes_gcm_seal(
            key,
            nonce,
            data,
        ),
        0 < data.len() <= SEALED_CHUNK_SIZE ==> open_chunks(key, nonce, data) == aes_gcm_open(
            key,
            nonce,
            data,
        ),
{
}

/// `text` followed by `more`.
#[verifier::external_body]
fn push_str(text: &mut String, more: &str)
    ensures
        final(text)@ == old(text)@ + more@,
{
    text.push_str(more)
}

impl AesError {
    /// The error in words.
    pub fn message(&self) -> (text: String)
        ensures
            match *self {
                AesError::AesGcmError(_) => text@
                    == "AES GCM encryption/decryption error: aead::Error"@,
                AesError::SecureStoreError(SecureStoreError::EncryptionError) => text@
                    == "Secure store error: EncryptionError"@,
                AesError::SecureStoreError(SecureStoreError::DecryptionError) => text@
                    == "Secure store error: DecryptionError"@,
                AesError::InvalidKeyLength => text@ == "Invalid key length, must be 12 bytes"@,
                AesError::IoError(_) => text@.len() >= "IO error: "@.len() && text@.subrange(
                    0,
                    "IO error: "@.len() as int,
                ) == "IO error: "@,
                AesError::SerializeError(reason) => text@ == "Serialization error: "@ + reason@,
                AesError::DeserializeError(reason) => text@ == "Deserialization error: "@
                    + reason@,
            },
    {
        match self {
            AesError::AesGcmError(_) => {
                "AES GCM encryption/decryption error: aead::Error".to_string()
            },
            AesError::SecureStoreError(SecureStoreError::EncryptionError) => {
                "Secure store error: EncryptionError".to_string()
            },
            AesError::SecureStoreError(SecureStoreError::DecryptionError) => {
                "Secure store error: DecryptionError".to_string()
            },
            AesError::InvalidKeyLength => "Invalid key length, must be 12 bytes".to_string(),
            AesError::IoError(err) => {
                let mut text = "IO error: ".to_string();
                let cause = err.to_string();
                push_str(&mut text, cause.as_str());
                assert(text@.subrange(0, "IO error: "@.len() as int) =~= "IO error: "@);
                text
            },
            AesError::SerializeError(reason) => {
                let mut text = "Serialization error: ".to_string();
                push_str(&mut text, reason.as_str());
                text
            },
            AesError::DeserializeError(reason) => {
                let mut text = "Deserialization error: ".to_string();
                push_str(&mut text, reason.as_str());
                text
            },
        }
    }
}

} // verus!
