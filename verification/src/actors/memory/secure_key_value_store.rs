//! A store of encrypted fragments, one to a slot, found by the hash of
//! their identifier.

use crate::actors::encryption::decryptor::Decryptor;
use crate::actors::encryption::encryptor::Encryptor;
use crate::actors::encryption::CipherContext;
use crate::tools::memory_scramble::{scrambled, MemoryScramble};
use std::collections::hash_map::DefaultHasher;
use std::hash::Hasher;
use vstd::prelude::*;
use vstd::std_specs::hash::DefaultHasherAdditionalSpecFns;
use vstd::utf8::encode_utf8;

verus! {

/// Why the store could not take or give a value.
#[derive(Clone, Copy, Debug, PartialEq, Eq, Structural)]
pub enum SecureStoreError {
    /// The value could not be sealed.
    EncryptionError,
    /// The stored bytes did not open.
    DecryptionError,
}

/// Slots that a store has when it is made without a number of its own.
pub const DEFAULT_CAPACITY: usize = 64;

/// The hash of an identifier: that of the standard hasher after it was fed
/// the identifier's bytes.
pub open spec fn identifier_hash(id: Seq<char>) -> u64 {
    DefaultHasher::spec_finish(seq![encode_utf8(id)])
}

/// The slot that a hash falls in when there are `capacity` slots.
pub fn slot_for(hash: u64, capacity: usize) -> (slot: usize)
    requires
        capacity > 0,
    ensures
        slot == (hash as int) % (capacity as int),
        slot < capacity,
{
    (hash % (capacity as u64)) as usize
}

/// What a store is to a contract. `slots` holds, for each slot that was ever
/// reached, the identifier and the ciphertext written there last.
pub ghost struct StoreModel {
    pub capacity: nat,
    pub slots: Seq<Option<(Seq<char>, Seq<u8>)>>,
    pub sealing: CipherContext,
    pub opening: CipherContext,
}

impl StoreModel {
    /// The slot of an identifier: its hash, reduced by the capacity.
    pub open spec fn slot_of(self, id: Seq<char>) -> int {
        (identifier_hash(id) as int) % (self.capacity as int)
    }

    /// The ciphertext in the slot of `id`, whoever wrote it.
    pub open spec fn stored(self, id: Seq<char>) -> Option<Seq<u8>> {
        let i = self.slot_of(id);
        if 0 <= i < self.slots.len() {
            match self.slots[i] {
                Some((_, sealed)) => Some(sealed),
                None => None,
            }
        } else {
            None
        }
    }

    /// What a reader finds under `id`: nothing where the slot is empty, the
    /// message where the slot's ciphertext opens, and otherwise an error.
    pub open spec fn fetched(self, id: Seq<char>) -> Result<Option<Seq<u8>>, SecureStoreError> {
        match self.stored(id) {
            None => Ok(None),
            Some(sealed) => if self.opening.valid() && self.opening.opened(sealed) is Some {
                Ok(Some(self.opening.opened(sealed)->0))
            } else {
                Err(SecureStoreError::DecryptionError)
            },
        }
    }

    /// The store after `sealed` was written to the slot of `id`. Slots up to
    /// that one come into being empty.
    pub open spec fn put(self, id: Seq<char>, sealed: Seq<u8>) -> StoreModel {
        let i = self.slot_of(id);
        let grown = if i < self.slots.len() {
            self.slots
        } else {
            self.slots + Seq::new((i + 1 - self.slots.len()) as nat, |j: int| None)
        };
        StoreModel { slots: grown.update(i, Some((id, sealed))), ..self }
    }

    /// The store with other bytes in the slot of `id`, under the identifier
    /// that the slot has. Without an entry in that slot the store is the same.
    pub open spec fn rewritten(self, id: Seq<char>, bytes: Seq<u8>) -> StoreModel {
        let i = self.slot_of(id);
        if 0 <= i < self.slots.len() {
            match self.slots[i] {
                Some((name, _)) => StoreModel {
                    slots: self.slots.update(i, Some((name, bytes))),
                    ..self
                },
                None => self,
            }
        } else {
            self
        }
    }

    /// The store after the slot of `id` was emptied.
    pub open spec fn cleared(self, id: Seq<char>) -> StoreModel {
        let i = self.slot_of(id);
        if 0 <= i < self.slots.len() {
            StoreModel { slots: self.slots.update(i, None), ..self }
        } else {
            self
        }
    }

    /// The worker that opens has the context of the worker that seals, and
    /// the context is valid: what one seals the other opens.
    pub open spec fn paired(self) -> bool {
        self.sealing == self.opening && self.sealing.valid()
    }
}

/// Writing twice under one identifier leaves the second ciphertext there.
pub proof fn lemma_overwrite(store: StoreModel, id: Seq<char>, first: Seq<u8>, second: Seq<u8>)
    requires
        store.capacity > 0,
    ensures
        store.put(id, first).put(id, second).stored(id) == Some(second),
{
}

/// Two identifiers with one slot overwrite each other: after both were
/// written, the first identifier finds what the second wrote.
pub proof fn lemma_collision(
    store: StoreModel,
    first_id: Seq<char>,
    first: Seq<u8>,
    second_id: Seq<char>,
    second: Seq<u8>,
)
    requires
        store.capacity > 0,
        store.slot_of(first_id) == store.slot_of(second_id),
    ensures
        store.put(first_id, first).put(second_id, second).stored(first_id) == Some(second),
{
}

/// Writing under one identifier leaves every other slot as it was.
pub proof fn lemma_put_elsewhere(store: StoreModel, id: Seq<char>, sealed: Seq<u8>, other: Seq<char>)
    requires
        store.capacity > 0,
        store.slot_of(id) != store.slot_of(other),
    ensures
        store.put(id, sealed).stored(other) == store.stored(other),
{
}

/// With a capacity of one every identifier has slot zero.
pub proof fn lemma_single_slot(store: StoreModel, id: Seq<char>)
    requires
        store.capacity == 1,
    ensures
        store.slot_of(id) == 0,
{
}

/// Encrypted values in an array of slots. An identifier's slot is its hash
/// reduced by the capacity, which is fixed when the store is made, so an
/// identifier keeps its slot. Two identifiers may share one: then each
/// overwrites the other.
pub struct SecureKeyValueStore {
    data: Vec<Option<(String, Vec<u8>)>>,
    capacity: usize,
    encryptor: Encryptor,
    decryptor: Decryptor,
}

pub open spec fn slot_view(slot: Option<(String, Vec<u8>)>) -> Option<(Seq<char>, Seq<u8>)> {
    match slot {
        Some((id, sealed)) => Some((id@, sealed@)),
        None => None,
    }
}

impl View for SecureKeyValueStore {
    type V = StoreModel;

    closed spec fn view(&self) -> StoreModel {
        StoreModel {
            capacity: self.capacity as nat,
            slots: Seq::new(self.data@.len(), |i: int| slot_view(self.data@[i])),
            sealing: self.encryptor@,
            opening: self.decryptor@,
        }
    }
}

impl SecureKeyValueStore {
    /// The store has a slot for every identifier, and no slot beyond its
    /// capacity.
    pub closed spec fn well_formed(&self) -> bool {
        self.capacity > 0 && self.data@.len() <= self.capacity
    }

    /// An empty store of `DEFAULT_CAPACITY` slots.
    pub fn new(encryptor: Encryptor, decryptor: Decryptor) -> (store: SecureKeyValueStore)
        ensures
            store.well_formed(),
            store@ == (StoreModel {
                capacity: DEFAULT_CAPACITY as nat,
                slots: Seq::empty(),
                sealing: encryptor@,
                opening: decryptor@,
            }),
    {
        let store = SecureKeyValueStore {
            data: Vec::new(),
            capacity: DEFAULT_CAPACITY,
            encryptor,
            decryptor,
        };
        assert(store@.slots =~= Seq::empty());
        store
    }

    /// An empty store of `capacity` slots, and of one slot where `capacity`
    /// is zero, so that every identifier has a slot.
    pub fn with_capacity(encryptor: Encryptor, decryptor: Decryptor, capacity: usize) -> (store:
        SecureKeyValueStore)
        ensures
            store.well_formed(),
            store@ == (StoreModel {
                capacity: if capacity == 0 {
                    1nat
                } else {
                    capacity as nat
                },
                slots: Seq::empty(),
                sealing: encryptor@,
                opening: decryptor@,
            }),
    {
        let store = SecureKeyValueStore {
            data: Vec::new(),
            capacity: if capacity == 0 {
                1
            } else {
                capacity
            },
            encryptor,
            decryptor,
        };
        assert(store@.slots =~= Seq::empty());
        store
    }

    /// The number of slots by which hashes are reduced. It is never zero.
    pub fn capacity(&self) -> (n: usize)
        requires
            self.well_formed(),
        ensures
            n == self@.capacity,
            n > 0,
    {
        self.capacity
    }

    /// Seals `value` and writes it to the slot of `key`. The call fails, and
    /// leaves the store as it was, exactly when the sealing context is not
    /// valid or does not take a message this long.
    pub fn set(&mut self, key: String, value: Vec<u8>) -> (r: Result<(), SecureStoreError>)
        requires
            old(self).well_formed(),
        ensures
            final(self).well_formed(),
            final(self)@.capacity == old(self)@.capacity,
            match r {
                Ok(()) => {
                    &&& old(self)@.sealing.valid()
                    &&& old(self)@.sealing.accepts(value@)
                    &&& final(self)@ == old(self)@.put(key@, old(self)@.sealing.sealed(value@))
                    &&& old(self)@.sealing.opened(old(self)@.sealing.sealed(value@)) == Some(
                        value@,
                    )
                    &&& old(self)@.paired() ==> final(self)@.fetched(key@) == Ok::<
                        Option<Seq<u8>>,
                        SecureStoreError,
                    >(Some(value@))
                },
                Err(e) => {
                    &&& e == SecureStoreError::EncryptionError
                    &&& !(old(self)@.sealing.valid() && old(self)@.sealing.accepts(value@))
                    &&& final(self)@ == old(self)@
                },
            },
    {
        let encrypted_value = match self.encryptor.encrypt(value.as_slice()) {
            Ok(sealed) => sealed,
            Err(_) => {
                return Err(SecureStoreError::EncryptionError);
            },
        };
        self.put_sealed(key, encrypted_value);
        Ok(())
    }

    /// Writes bytes that are sealed already to the slot of `key`, as they
    /// are.
    pub fn put_sealed(&mut self, key: String, sealed: Vec<u8>)
        requires
            old(self).well_formed(),
        ensures
            final(self).well_formed(),
            final(self)@ == old(self)@.put(key@, sealed@),
    {
        let index = self.calculate_unique_index(key.as_str());
        self.ensure_capacity(index);
        let ghost grown = self@.slots;
        let ghost entry = Some((key@, sealed@));
        self.data.set(index, Some((key, sealed)));
        assert(self@.slots =~= grown.update(index as int, entry));
    }

    /// The sealed bytes in the slot of `key`, as they are.
    pub fn get_sealed(&self, key: &str) -> (r: Option<Vec<u8>>)
        requires
            self.well_formed(),
        ensures
            match r {
                Some(sealed) => self@.stored(key@) == Some(sealed@),
                None => self@.stored(key@) is None,
            },
    {
        let index = self.calculate_unique_index(key);
        if index < self.data.len() {
            match &self.data[index] {
                Some((_, sealed)) => Some(sealed.clone()),
                None => None,
            }
        } else {
            None
        }
    }

    /// Opens what the slot of `key` holds. An empty slot gives `None`. The
    /// call fails exactly when the slot holds bytes that the opening context
    /// rejects, or that context is not valid.
    pub fn get(&self, key: &str) -> (r: Result<Option<Vec<u8>>, SecureStoreError>)
        requires
            self.well_formed(),
        ensures
            match r {
                Ok(Some(value)) => self@.fetched(key@) == Ok::<
                    Option<Seq<u8>>,
                    SecureStoreError,
                >(Some(value@)),
                Ok(None) => self@.fetched(key@) == Ok::<Option<Seq<u8>>, SecureStoreError>(None),
                Err(e) => self@.fetched(key@) == Err::<Option<Seq<u8>>, SecureStoreError>(e),
            },
    {
        let index = self.calculate_unique_index(key);
        if index < self.data.len() {
            match &self.data[index] {
                Some((_, encrypted_value)) => {
                    match self.decryptor.decrypt(encrypted_value.as_slice()) {
                        Ok(value) => Ok(Some(value)),
                        Err(_) => Err(SecureStoreError::DecryptionError),
                    }
                },
                None => Ok(None),
            }
        } else {
            Ok(None)
        }
    }

    /// Opens what the slot of `key` holds and empties the slot. Where the
    /// call fails, as `get` does, the store is as it was.
    pub fn pop(&mut self, key: &str) -> (r: Result<Option<Vec<u8>>, SecureStoreError>)
        requires
            old(self).well_formed(),
        ensures
            final(self).well_formed(),
            match r {
                Ok(Some(value)) => {
                    &&& old(self)@.fetched(key@) == Ok::<Option<Seq<u8>>, SecureStoreError>(
                        Some(value@),
                    )
                    &&& final(self)@ == old(self)@.cleared(key@)
                },
                Ok(None) => {
                    &&& old(self)@.fetched(key@) == Ok::<Option<Seq<u8>>, SecureStoreError>(None)
                    &&& final(self)@ == old(self)@
                },
                Err(e) => {
                    &&& old(self)@.fetched(key@) == Err::<Option<Seq<u8>>, SecureStoreError>(e)
                    &&& final(self)@ == old(self)@
                },
            },
    {
        let value = match self.get(key) {
            Ok(Some(value)) => value,
            Ok(None) => {
                return Ok(None);
            },
            Err(e) => {
                return Err(e);
            },
        };
        let index = self.calculate_unique_index(key);
        let ghost before = self@.slots;
        self.data.set(index, None);
        assert(self@.slots =~= before.update(index as int, None));
        Ok(Some(value))
    }

    /// Empties the slot of `key` without opening what it holds.
    pub fn clear(&mut self, key: &str)
        requires
            old(self).well_formed(),
        ensures
            final(self).well_formed(),
            final(self)@ == old(self)@.cleared(key@),
    {
        let index = self.calculate_unique_index(key);
        if index < self.data.len() {
            let ghost before = self@.slots;
            self.data.set(index, None);
            assert(self@.slots =~= before.update(index as int, None));
        }
    }

    /// Scrambles the sealed bytes in the slot of `key`, so that nothing
    /// opens them again. The slot keeps its identifier, and every other slot
    /// stays as it is. Nothing happens to an empty slot.
    pub fn scramble(&mut self, key: &str, scrambler: &mut MemoryScramble, noise: &[i8])
        requires
            old(self).well_formed(),
        ensures
            final(self).well_formed(),
            final(scrambler).stealth() == old(scrambler).stealth(),
            final(scrambler).size() == old(scrambler).size(),
            match old(self)@.stored(key@) {
                None => final(self)@ == old(self)@,
                Some(sealed) => exists|bytes: Seq<u8>|
                    #![trigger old(self)@.rewritten(key@, bytes)]
                    {
                        &&& scrambled(sealed, bytes, old(scrambler).stealth(), noise@)
                        &&& bytes.len() == sealed.len()
                        &&& final(self)@ == old(self)@.rewritten(key@, bytes)
                    },
            },
    {
        let index = self.calculate_unique_index(key);
        if index >= self.data.len() {
            return ;
        }
        let ghost before = self@.slots;
        let mut entry: Option<(String, Vec<u8>)> = None;
        self.data.set_and_swap(index, &mut entry);
        match entry {
            Some((id, sealed)) => {
                let mut sealed = sealed;
                let ghost old_bytes = sealed@;
                scrambler.scramble(sealed.as_mut_slice(), noise);
                let ghost new_bytes = sealed@;
                let ghost name = id@;
                self.data.set(index, Some((id, sealed)));
                proof {
                    assert(self@.slots =~= before.update(index as int, Some((name, new_bytes))));
                    assert(self@ == old(self)@.rewritten(key@, new_bytes));
                }
            },
            None => {
                assert(self@.slots =~= before);
            },
        }
    }

    /// Moves the sealed bytes in the slot of `key` to a buffer of their own
    /// that is newly made. What the store holds is the same.
    pub fn relocate(&mut self, key: &str)
        requires
            old(self).well_formed(),
        ensures
            final(self).well_formed(),
            final(self)@ == old(self)@,
    {
        let index = self.calculate_unique_index(key);
        if index >= self.data.len() {
            return ;
        }
        let ghost before = self@.slots;
        let mut entry: Option<(String, Vec<u8>)> = None;
        self.data.set_and_swap(index, &mut entry);
        match entry {
            Some((id, sealed)) => {
                let moved = sealed.clone();
                let ghost name = id@;
                self.data.set(index, Some((id, moved)));
                assert(self@.slots =~= before);
            },
            None => {
                assert(self@.slots =~= before);
            },
        }
    }

    /// Whether no slot was ever reached.
    pub fn is_empty(&self) -> (empty: bool)
        ensures
            empty == (self@.slots.len() == 0),
    {
        self.data.is_empty()
    }

    /// Grows the array of slots until it holds slot `index`.
    fn ensure_capacity(&mut self, index: usize)
        requires
            index < old(self).capacity,
            old(self).well_formed(),
        ensures
            final(self).well_formed(),
            final(self)@ == (StoreModel {
                slots: if index < old(self)@.slots.len() {
                    old(self)@.slots
                } else {
                    old(self)@.slots + Seq::new(
                        (index + 1 - old(self)@.slots.len()) as nat,
                        |j: int| None,
                    )
                },
                ..old(self)@
            }),
            index < final(self).data@.len(),
    {
        while self.data.len() <= index
            invariant
                index < self.capacity,
                self.capacity == old(self).capacity,
                self.encryptor == old(self).encryptor,
                self.decryptor == old(self).decryptor,
                self.data@.len() <= self.capacity,
                old(self).data@.len() <= self.data@.len(),
                self.data@.len() <= index + 1 || self.data@ == old(self).data@,
                forall|i: int| 0 <= i < old(self).data@.len() ==> self.data@[i] == old(self).data@[i],
                forall|i: int| old(self).data@.len() <= i < self.data@.len() ==> self.data@[i] is None,
            decreases index + 1 - self.data.len(),
        {
            self.data.push(None);
        }
        proof {
            if index < old(self)@.slots.len() {
                assert(self@.slots =~= old(self)@.slots);
            } else {
                assert(self@.slots =~= old(self)@.slots + Seq::new(
                    (index + 1 - old(self)@.slots.len()) as nat,
                    |j: int| None,
                ));
            }
        }
    }

    /// The slot of `key`.
    fn calculate_unique_index(&self, key: &str) -> (index: usize)
        requires
            self.capacity > 0,
        ensures
            index == self@.slot_of(key@),
            index < self.capacity,
    {
        let mut hasher = DefaultHasher::new();
        hasher.write(key.as_bytes());
        let hash = hasher.finish();
        assert(hasher@ =~= seq![encode_utf8(key@)]);
        slot_for(hash, self.capacity)
    }
}

} // verus!
