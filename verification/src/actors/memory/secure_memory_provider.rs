//! Lists of typed values, each under an identifier, kept sealed in a store.

use super::secure_key_value_store::{SecureKeyValueStore, SecureStoreError, StoreModel};
use super::wire::{decode_payloads, encode_payloads, lemma_decode_encode, Payload};
use super::{payloads, Input};
use crate::actors::encryption::decryptor::Decryptor;
use crate::actors::encryption::encryptor::Encryptor;
use crate::actors::encryption::{AesError, CipherContext};
use crate::actors::Actor;
use crate::tools::config::AppConfig;
use crate::tools::memory_scramble::{scrambled, MemoryScramble};
use crate::utils::key_generator::{generate_aes_key, generate_nonce};
use rand::rngs::StdRng;
use vstd::prelude::*;
use vstd::std_specs::convert::FromSpecImpl;

verus! {

/// Why the provider could not serve a request.
#[derive(Clone, Copy, Debug, PartialEq, Eq, Structural)]
pub enum SecureMemoryProviderError {
    StoreError(SecureStoreError),
}

impl From<SecureStoreError> for SecureMemoryProviderError {
    fn from(err: SecureStoreError) -> (e: SecureMemoryProviderError) {
        SecureMemoryProviderError::StoreError(err)
    }
}

impl FromSpecImpl<SecureStoreError> for SecureMemoryProviderError {
    open spec fn obeys_from_spec() -> bool {
        true
    }

    open spec fn from_spec(err: SecureStoreError) -> SecureMemoryProviderError {
        SecureMemoryProviderError::StoreError(err)
    }
}

/// What is found under an identifier.
pub ghost enum Held {
    /// The slot is empty.
    Absent,
    /// The slot holds this list.
    List(Seq<Payload>),
    /// The slot holds a message that is no list.
    Garbled,
    /// The slot holds bytes that do not open.
    Unreadable,
}

impl Held {
    /// The list that is there, an absent one being empty.
    pub open spec fn items(self) -> Seq<Payload> {
        match self {
            Held::List(items) => items,
            _ => Seq::empty(),
        }
    }

    /// Whether a list can be read: the slot is empty or holds one.
    pub open spec fn readable(self) -> bool {
        self is Absent || self is List
    }
}

/// What is held after a value was appended.
pub open spec fn after_push(held: Held, value: Payload) -> Held {
    Held::List(held.items().push(value))
}

/// What taking the last value gives, and what is held after it: an empty
/// remainder leaves the identifier absent.
pub open spec fn after_pop(held: Held) -> (Option<Payload>, Held) {
    if held.items().len() == 0 {
        (None, Held::Absent)
    } else if held.items().len() == 1 {
        (Some(held.items().last()), Held::Absent)
    } else {
        (Some(held.items().last()), Held::List(held.items().drop_last()))
    }
}

/// Values come back last in, first out: after `a` and then `b` were appended
/// under an identifier that held nothing, taking gives `b`, then `a`, then
/// nothing.
pub proof fn lemma_push_pop_order(a: Payload, b: Payload)
    ensures
        ({
            let two = after_push(after_push(Held::Absent, a), b);
            let (first, one) = after_pop(two);
            let (second, none) = after_pop(one);
            let (third, still_none) = after_pop(none);
            &&& first == Some(b)
            &&& second == Some(a)
            &&& third is None
            &&& none is Absent
            &&& still_none is Absent
        }),
{
    let start: Seq<Payload> = Seq::empty();
    assert(start.push(a).push(b).drop_last() =~= start.push(a));
}

/// What a provider is to a contract: its store, and the contexts of its own
/// two workers.
pub ghost struct ProviderModel {
    pub store: StoreModel,
    pub sealing: CipherContext,
    pub opening: CipherContext,
}

impl ProviderModel {
    /// What is found under `id`.
    pub open spec fn held(self, id: Seq<char>) -> Held {
        match self.store.fetched(id) {
            Err(_) => Held::Unreadable,
            Ok(None) => Held::Absent,
            Ok(Some(message)) => match decode_payloads(message) {
                Some(items) => Held::List(items),
                None => Held::Garbled,
            },
        }
    }

    /// The store can take this list: its sealing context is valid and takes
    /// a message as long as the list's bytes.
    pub open spec fn can_store(self, items: Seq<Payload>) -> bool {
        self.store.sealing.valid() && self.store.sealing.accepts(encode_payloads(items))
    }

    /// The provider after `items` were stored under `id`.
    pub open spec fn storing(self, id: Seq<char>, items: Seq<Payload>) -> ProviderModel {
        ProviderModel {
            store: self.store.put(id, self.store.sealing.sealed(encode_payloads(items))),
            ..self
        }
    }

    /// The message under `id` with both layers of encryption taken off: the
    /// store's, and then the provider's own.
    pub open spec fn unwrapped(self, id: Seq<char>) -> Option<Seq<u8>> {
        match self.store.fetched(id) {
            Ok(Some(inner)) => if self.opening.valid() {
                self.opening.opened(inner)
            } else {
                None
            },
            _ => None,
        }
    }

    /// All four workers share one valid context.
    pub open spec fn paired(self) -> bool {
        &&& self.store.paired()
        &&& self.sealing == self.store.sealing
        &&& self.opening == self.store.sealing
    }
}

/// Typed lists over the encrypted store, and a second layer of encryption
/// for single fragments.
pub struct SecureMemoryProvider {
    fragments: SecureKeyValueStore,
    encryptor: Encryptor,
    decryptor: Decryptor,
}

impl View for SecureMemoryProvider {
    type V = ProviderModel;

    closed spec fn view(&self) -> ProviderModel {
        ProviderModel {
            store: self.fragments@,
            sealing: self.encryptor@,
            opening: self.decryptor@,
        }
    }
}

impl Actor<Input> for SecureMemoryProvider {
    /// A provider lives from the moment it is made.
    fn is_alive(&self) -> (alive: bool)
        ensures
            alive,
    {
        true
    }

    fn run(&self, input: Option<Input>) {
    }
}

impl SecureMemoryProvider {
    /// The store is well formed, and all four workers share one valid
    /// context: what is stored can be read again.
    pub closed spec fn well_formed(&self) -> bool {
        self.fragments.well_formed() && self@.paired()
    }

    /// A well-formed provider has its workers paired.
    pub proof fn lemma_paired(&self)
        requires
            self.well_formed(),
        ensures
            self@.paired(),
    {
    }

    /// A provider with a fresh key and nonce for the configuration's level.
    /// Its store is empty, and all its workers share one valid context.
    pub fn new(config: &AppConfig, rng: &mut StdRng) -> (provider: SecureMemoryProvider)
        ensures
            provider.well_formed(),
            provider@.paired(),
            provider@.store.slots == Seq::<Option<(Seq<char>, Seq<u8>)>>::empty(),
            provider@.store.capacity > 0,
            provider@.sealing.level == config.parameters.encryption_level,
            provider@.sealing.chunked == config.features.parallel_processing,
    {
        let key = generate_aes_key(config.parameters.encryption_level, rng);
        let nonce = generate_nonce(rng);
        let encryptor = Encryptor::new(None, key.clone(), nonce.clone(), config);
        let decryptor = Decryptor::new(None, key.clone(), nonce.clone(), config);
        let store_encryptor = Encryptor::new(None, key.clone(), nonce.clone(), config);
        let store_decryptor = Decryptor::new(None, key, nonce, config);
        SecureMemoryProvider {
            fragments: SecureKeyValueStore::new(store_encryptor, store_decryptor),
            encryptor,
            decryptor,
        }
    }

    /// The list under `id`, or `None` where nothing is held. The call fails
    /// with the store's error where the slot does not open, and with
    /// `DeserializeError` where it opens to something that is no list.
    pub fn get(&self, id: &str) -> (r: Result<Option<Vec<Input>>, AesError>)
        requires
            self.well_formed(),
        ensures
            match self@.held(id@) {
                Held::Absent => r matches Ok(None),
                Held::List(items) => r matches Ok(Some(found)) && payloads(found@) == items,
                Held::Garbled => r matches Err(e) && e is DeserializeError,
                Held::Unreadable => r matches Err(AesError::SecureStoreError(e)) && e
                    == SecureStoreError::DecryptionError,
            },
    {
        match self.fragments.get(id) {
            Ok(Some(message)) => match Input::deserialize(message.as_slice()) {
                Ok(items) => Ok(Some(items)),
                Err(e) => Err(e),
            },
            Ok(None) => Ok(None),
            Err(e) => Err(AesError::from(e)),
        }
    }

    /// Stores `data` under `id`, in place of what was there. The call fails,
    /// and changes nothing, exactly when the store cannot take the list.
    /// The list is then held under `id`.
    pub fn set(&mut self, id: String, data: Vec<Input>) -> (r: Result<(), SecureStoreError>)
        requires
            old(self).well_formed(),
        ensures
            final(self).well_formed(),
            match r {
                Ok(()) => {
                    &&& old(self)@.can_store(payloads(data@))
                    &&& final(self)@ == old(self)@.storing(id@, payloads(data@))
                    &&& final(self)@.held(id@) == Held::List(
                        payloads(data@),
                    )
                },
                Err(e) => {
                    &&& e == SecureStoreError::EncryptionError
                    &&& !old(self)@.can_store(payloads(data@))
                    &&& final(self)@ == old(self)@
                },
            },
    {
        let serialized = match Input::serialize(data.as_slice()) {
            Ok(bytes) => bytes,
            Err(_) => {
                return Err(SecureStoreError::EncryptionError);
            },
        };
        proof {
            lemma_decode_encode(payloads(data@));
        }
        self.fragments.set(id, serialized)
    }

    /// Appends `data` to the list under `id`, which is empty where nothing
    /// is held. The call fails, and changes nothing, where the list cannot
    /// be read or the longer list cannot be stored.
    pub fn push(&mut self, id: String, data: Input) -> (r: Result<(), AesError>)
        requires
            old(self).well_formed(),
        ensures
            final(self).well_formed(),
            match old(self)@.held(id@) {
                Held::Garbled => r matches Err(e) && e is DeserializeError && final(self)@
                    == old(self)@,
                Held::Unreadable => r matches Err(AesError::SecureStoreError(e)) && e
                    == SecureStoreError::DecryptionError && final(self)@ == old(self)@,
                held => {
                    let longer = held.items().push(data@);
                    if old(self)@.can_store(longer) {
                        &&& r is Ok
                        &&& final(self)@ == old(self)@.storing(id@, longer)
                        &&& final(self)@.held(id@) == after_push(
                            held,
                            data@,
                        )
                    } else {
                        &&& r matches Err(AesError::SecureStoreError(e)) && e
                            == SecureStoreError::EncryptionError
                        &&& final(self)@ == old(self)@
                    }
                },
            },
    {
        let mut items = match self.get(id.as_str()) {
            Ok(Some(items)) => items,
            Ok(None) => Vec::new(),
            Err(e) => {
                return Err(e);
            },
        };
        let ghost shorter = payloads(items@);
        let ghost value = data@;
        items.push(data);
        assert(payloads(items@) =~= shorter.push(value));
        assert(old(self)@.held(id@).items() =~= shorter);
        match self.set(id, items) {
            Ok(()) => Ok(()),
            Err(e) => Err(AesError::from(e)),
        }
    }

    /// Takes the last value of the list under `id`. What is left is stored
    /// again, and the identifier is cleared where nothing is left. The call
    /// fails, and changes nothing, where the list cannot be read or what is
    /// left cannot be stored.
    pub fn pop(&mut self, id: &str) -> (r: Result<Option<Input>, AesError>)
        requires
            old(self).well_formed(),
        ensures
            final(self).well_formed(),
            match old(self)@.held(id@) {
                Held::Garbled => r matches Err(e) && e is DeserializeError && final(self)@
                    == old(self)@,
                Held::Unreadable => r matches Err(AesError::SecureStoreError(e)) && e
                    == SecureStoreError::DecryptionError && final(self)@ == old(self)@,
                Held::Absent => r matches Ok(None) && final(self)@ == old(self)@,
                Held::List(items) => if items.len() <= 1 {
                    &&& r matches Ok(taken)
                    &&& (match taken {
                        Some(value) => items.len() == 1 && value@ == items[0],
                        None => items.len() == 0,
                    })
                    &&& final(self)@ == (ProviderModel {
                        store: old(self)@.store.cleared(id@),
                        ..old(self)@
                    })
                    &&& final(self)@.held(id@) is Absent
                } else if old(self)@.can_store(items.drop_last()) {
                    &&& r matches Ok(Some(value))
                    &&& value@ == items.last()
                    &&& final(self)@ == old(self)@.storing(id@, items.drop_last())
                    &&& final(self)@.held(id@) == Held::List(
                        items.drop_last(),
                    )
                } else {
                    &&& r matches Err(AesError::SecureStoreError(e)) && e
                        == SecureStoreError::EncryptionError
                    &&& final(self)@ == old(self)@
                },
            },
    {
        let mut items = match self.get(id) {
            Ok(Some(items)) => items,
            Ok(None) => {
                return Ok(None);
            },
            Err(e) => {
                return Err(e);
            },
        };
        let ghost all = payloads(items@);
        let taken = items.pop();
        if items.len() == 0 {
            self.fragments.clear(id);
            return Ok(taken);
        }
        assert(payloads(items@) =~= all.drop_last());
        match self.set(id.to_string(), items) {
            Ok(()) => Ok(taken),
            Err(e) => Err(AesError::from(e)),
        }
    }

    /// Puts a second layer of encryption on the fragment under `id`: the
    /// message that the store gives is sealed by the provider's own worker
    /// and stored again, where the store seals it once more. Nothing happens
    /// where nothing is held. Where any step fails the provider is as it
    /// was. After the call the store gives the inner ciphertext under `id`,
    /// and `decrypt_fragment` gives the message that was held.
    pub fn encrypt_fragment(&mut self, id: String) -> (r: Result<(), AesError>)
        requires
            old(self).well_formed(),
        ensures
            final(self).well_formed(),
            match old(self)@.store.fetched(id@) {
                Err(e) => r matches Err(AesError::SecureStoreError(x)) && x == e && final(self)@
                    == old(self)@,
                Ok(None) => r is Ok && final(self)@ == old(self)@,
                Ok(Some(message)) => if !old(self)@.sealing.valid() {
                    r matches Err(e) && e is InvalidKeyLength && final(self)@ == old(self)@
                } else if !old(self)@.sealing.accepts(message) {
                    r matches Err(e) && e is AesGcmError && final(self)@ == old(self)@
                } else {
                    let inner = old(self)@.sealing.sealed(message);
                    if old(self)@.store.sealing.valid() && old(self)@.store.sealing.accepts(
                        inner,
                    ) {
                        &&& r is Ok
                        &&& final(self)@ == (ProviderModel {
                            store: old(self)@.store.put(
                                id@,
                                old(self)@.store.sealing.sealed(inner),
                            ),
                            ..old(self)@
                        })
                        &&& final(self)@.store.fetched(id@) == Ok::<
                            Option<Seq<u8>>,
                            SecureStoreError,
                        >(Some(inner))
                        &&& final(self)@.unwrapped(id@) == Some(message)
                    } else {
                        &&& r matches Err(AesError::SecureStoreError(e)) && e
                            == SecureStoreError::EncryptionError
                        &&& final(self)@ == old(self)@
                    }
                },
            },
    {
        let message = match self.fragments.get(id.as_str()) {
            Ok(Some(message)) => message,
            Ok(None) => {
                return Ok(());
            },
            Err(e) => {
                return Err(AesError::from(e));
            },
        };
        let inner = match self.encryptor.encrypt(message.as_slice()) {
            Ok(inner) => inner,
            Err(e) => {
                return Err(e);
            },
        };
        match self.fragments.set(id, inner) {
            Ok(()) => Ok(()),
            Err(e) => Err(AesError::from(e)),
        }
    }

    /// Gives the message under `id` with both layers of encryption taken
    /// off, or `None` where nothing is held. The call fails with the store's
    /// error where the slot does not open, with `InvalidKeyLength` where the
    /// provider's own context is not valid, and with `AesGcmError` where the
    /// provider's own worker rejects what the store gave.
    pub fn decrypt_fragment(&self, id: String) -> (r: Result<Option<Vec<u8>>, AesError>)
        requires
            self.well_formed(),
        ensures
            match self@.store.fetched(id@) {
                Err(e) => r matches Err(AesError::SecureStoreError(x)) && x == e,
                Ok(None) => r matches Ok(None),
                Ok(Some(inner)) => if !self@.opening.valid() {
                    r matches Err(e) && e is InvalidKeyLength
                } else {
                    match self@.opening.opened(inner) {
                        Some(message) => r matches Ok(Some(found)) && found@ == message,
                        None => r matches Err(e) && e is AesGcmError,
                    }
                },
            },
            r matches Ok(Some(found)) ==> self@.unwrapped(id@) == Some(found@),
    {
        let inner = match self.fragments.get(id.as_str()) {
            Ok(Some(inner)) => inner,
            Ok(None) => {
                return Ok(None);
            },
            Err(e) => {
                return Err(AesError::from(e));
            },
        };
        match self.decryptor.decrypt(inner.as_slice()) {
            Ok(message) => Ok(Some(message)),
            Err(e) => Err(e),
        }
    }

    /// Scrambles the sealed bytes of the fragment under `id`, so that the
    /// fragment cannot be opened again. Other fragments stay as they are.
    pub fn scramble_fragment(&mut self, id: &str, scrambler: &mut MemoryScramble, noise: &[i8])
        requires
            old(self).well_formed(),
        ensures
            final(self).well_formed(),
            final(scrambler).stealth() == old(scrambler).stealth(),
            final(scrambler).size() == old(scrambler).size(),
            match old(self)@.store.stored(id@) {
                None => final(self)@ == old(self)@,
                Some(sealed) => exists|bytes: Seq<u8>|
                    #![trigger old(self)@.store.rewritten(id@, bytes)]
                    {
                        &&& scrambled(sealed, bytes, old(scrambler).stealth(), noise@)
                        &&& bytes.len() == sealed.len()
                        &&& final(self)@ == (ProviderModel {
                            store: old(self)@.store.rewritten(id@, bytes),
                            ..old(self)@
                        })
                    },
            },
    {
        let ghost before = self@;
        self.fragments.scramble(id, scrambler, noise);
        proof {
            match before.store.stored(id@) {
                None => {},
                Some(sealed) => {
                    let bytes = choose|bytes: Seq<u8>|
                        #![trigger before.store.rewritten(id@, bytes)]
                        {
                            &&& scrambled(sealed, bytes, old(scrambler).stealth(), noise@)
                            &&& bytes.len() == sealed.len()
                            &&& self.fragments@ == before.store.rewritten(id@, bytes)
                        };
                    assert(self@ == (ProviderModel {
                        store: before.store.rewritten(id@, bytes),
                        ..before
                    }));
                },
            }
        }
    }

    /// Moves the fragment under `id` to a buffer that is newly made. What
    /// the provider holds is the same.
    pub fn move_fragment(&mut self, id: &str)
        requires
            old(self).well_formed(),
        ensures
            final(self).well_formed(),
            final(self)@ == old(self)@,
    {
        self.fragments.relocate(id);
    }

    /// A hook for tampering with what lies next to the fragments. The
    /// fragments own all their bytes, and nothing lies next to them that the
    /// provider could reach: the provider is left as it is.
    pub fn tamper_adjacent_blocks(&mut self)
        ensures
            *final(self) == *old(self),
    {
    }

    /// A hook for putting the fragments in another order. A fragment is
    /// found by its slot, which its identifier fixes: the provider is left
    /// as it is.
    pub fn shuffle_fragments(&mut self)
        ensures
            *final(self) == *old(self),
    {
    }
}

} // verus!
