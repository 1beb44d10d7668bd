//! Scrambling of regions of a buffer, so that what they held cannot be read.

use super::config::AppConfig;
use super::Tools;
use crate::cipher::{aes_gcm_seal, MAX_MESSAGE_SIZE, TAG_SIZE};
use crate::utils::memory::{
    add_noise, apply_gaussian_noise_on_buffer, drawn_from, encrypt_buffer_aes,
    shuffle_buffer_with_rng, xor_all, xor_buffer_with_seed,
};
use rand::rngs::StdRng;
use vstd::prelude::*;

verus! {

/// Bytes in a megabyte.
pub const MB: usize = 1024 * 1024;

/// The bytes that a scrambler works on for a configuration: as many
/// megabytes as are configured, and half of that in stealth.
pub open spec fn scramble_size(config: AppConfig) -> int {
    if config.features.stealth {
        (config.parameters.memory_scramble_size * MB) / 2
    } else {
        config.parameters.memory_scramble_size * MB
    }
}

/// A buffer after noise was added: sample `i` to byte `i`, and nothing to a
/// byte without a sample.
pub open spec fn with_noise(bytes: Seq<u8>, noise: Seq<i8>) -> Seq<u8> {
    Seq::new(
        bytes.len(),
        |i: int|
            if i < noise.len() {
                add_noise(bytes[i], noise[i])
            } else {
                bytes[i]
            },
    )
}

/// `after` is what the basic measures can make of `before`: every byte of
/// it is a byte of `before` xored with one seed.
pub open spec fn basic_scramble(before: Seq<u8>, after: Seq<u8>) -> bool {
    exists|seed: u8| drawn_from(after, #[trigger] xor_all(before, seed))
}

/// `after` is what the measures can make of `before`: the basic measures,
/// and in stealth the noise on top of them.
pub open spec fn scrambled(before: Seq<u8>, after: Seq<u8>, stealth: bool, noise: Seq<i8>) -> bool {
    if stealth {
        exists|middle: Seq<u8>| #[trigger]
            basic_scramble(before, middle) && after == with_noise(middle, noise)
    } else {
        basic_scramble(before, after)
    }
}

/// Position `place` lies in the region that starts at `offset` and has
/// `size` bytes.
pub open spec fn in_region(region: (usize, usize), place: int) -> bool {
    region.0 <= place < region.0 + region.1
}

/// Position `place` lies in one of the first `count` regions.
pub open spec fn in_some_region(regions: Seq<(usize, usize)>, count: int, place: int) -> bool {
    exists|k: int| 0 <= k < count && k < regions.len() && in_region(#[trigger] regions[k], place)
}

/// `after` is what scrambling one region can make of `before`: a region
/// that has bytes and lies in the buffer is scrambled and the rest is as it
/// was, and for any other region nothing changes.
pub open spec fn region_scrambled(
    before: Seq<u8>,
    after: Seq<u8>,
    region: (usize, usize),
    stealth: bool,
    noise: Seq<i8>,
) -> bool {
    &&& after.len() == before.len()
    &&& if region.1 > 0 && region.0 + region.1 <= before.len() {
        &&& forall|place: int|
            0 <= place < before.len() && !in_region(region, place) ==> #[trigger] after[place]
                == before[place]
        &&& scrambled(
            before.subrange(region.0 as int, region.0 + region.1),
            after.subrange(region.0 as int, region.0 + region.1),
            stealth,
            noise,
        )
    } else {
        after == before
    }
}

/// `after` is what scrambling the first `count` regions, one after the
/// other, can make of `before`. A region that overlaps an earlier one is
/// scrambled as the earlier turn left it.
pub open spec fn fragments_scrambled(
    before: Seq<u8>,
    after: Seq<u8>,
    regions: Seq<(usize, usize)>,
    count: int,
    stealth: bool,
    noise: Seq<i8>,
) -> bool
    decreases count,
{
    if count <= 0 || count > regions.len() {
        after == before
    } else {
        exists|middle: Seq<u8>|
            {
                &&& fragments_scrambled(before, middle, regions, count - 1, stealth, noise)
                &&& #[trigger] region_scrambled(
                    middle,
                    after,
                    regions[count - 1],
                    stealth,
                    noise,
                )
            }
    }
}

/// One more region scrambled after the first regions makes the first
/// regions and that one scrambled.
proof fn lemma_one_more_region(
    before: Seq<u8>,
    middle: Seq<u8>,
    after: Seq<u8>,
    regions: Seq<(usize, usize)>,
    count: int,
    stealth: bool,
    noise: Seq<i8>,
)
    requires
        0 < count <= regions.len(),
        fragments_scrambled(before, middle, regions, count - 1, stealth, noise),
        region_scrambled(middle, after, regions[count - 1], stealth, noise),
    ensures
        fragments_scrambled(before, after, regions, count, stealth, noise),
{
}

/// Scrambles buffers with a generator of its own.
pub struct MemoryScramble {
    stealth_mode: bool,
    rng: StdRng,
    memory_size: usize,
}

impl MemoryScramble {
    /// Whether the scrambler works in stealth.
    pub closed spec fn stealth(&self) -> bool {
        self.stealth_mode
    }

    /// The bytes of the scrambler's scratch buffer.
    pub closed spec fn size(&self) -> int {
        self.memory_size as int
    }

    /// A scrambler for a configuration.
    pub fn new(config: &AppConfig, rng: StdRng) -> (scrambler: MemoryScramble)
        requires
            config.parameters.memory_scramble_size * MB <= usize::MAX,
        ensures
            scrambler.stealth() == config.features.stealth,
            scrambler.size() == scramble_size(*config),
    {
        let is_stealth = config.features.stealth;
        let configured_memory_size = config.parameters.memory_scramble_size;
        let memory_size = configured_memory_size * MB;
        MemoryScramble {
            stealth_mode: is_stealth,
            rng,
            memory_size: if is_stealth {
                memory_size / 2
            } else {
                memory_size
            },
        }
    }

    /// The tool's name.
    pub fn name(&self) -> (tool: Tools)
        ensures
            tool == Tools::MemoryScramble,
    {
        Tools::MemoryScramble
    }

    /// Whether the scrambler works in stealth.
    pub fn is_stealth(&self) -> (stealth: bool)
        ensures
            stealth == self.stealth(),
    {
        self.stealth_mode
    }

    /// The bytes of the scrambler's scratch buffer.
    pub fn memory_size(&self) -> (size: usize)
        ensures
            size == self.size(),
    {
        self.memory_size
    }

    /// Takes the size of the scratch buffer from a configuration again. The
    /// mode stays as it is: in stealth the size is half of what is configured.
    pub fn adjust_memory_size(&mut self, config: &AppConfig)
        requires
            config.parameters.memory_scramble_size * MB <= usize::MAX,
        ensures
            final(self).stealth() == old(self).stealth(),
            final(self).size() == (if old(self).stealth() {
                (config.parameters.memory_scramble_size * MB) / 2
            } else {
                config.parameters.memory_scramble_size * MB
            }),
    {
        let is_stealth = self.stealth_mode;
        let configured_memory_size = config.parameters.memory_scramble_size * MB;
        self.memory_size = if is_stealth {
            configured_memory_size / 2
        } else {
            configured_memory_size
        };
    }

    /// Xors the buffer with a random byte and then fills it with bytes drawn
    /// from itself.
    pub fn apply_basic_measures(&mut self, memory_buffer: &mut [u8])
        ensures
            final(self).stealth() == old(self).stealth(),
            final(self).size() == old(self).size(),
            basic_scramble(old(memory_buffer)@, final(memory_buffer)@),
    {
        xor_buffer_with_seed(memory_buffer, &mut self.rng);
        let ghost xored = memory_buffer@;
        shuffle_buffer_with_rng(memory_buffer, &mut self.rng);
        proof {
            let seed = choose|seed: u8| xored == xor_all(old(memory_buffer)@, seed);
            assert(drawn_from(memory_buffer@, xor_all(old(memory_buffer)@, seed)));
        }
    }

    /// Adds the noise to the buffer, and seals the result under a key that
    /// is thrown away: what comes back cannot be opened.
    pub fn apply_stealth_measures(&mut self, memory_buffer: &mut [u8], noise: &[i8]) -> (sealed:
        Vec<u8>)
        ensures
            final(self).stealth() == old(self).stealth(),
            final(self).size() == old(self).size(),
            final(memory_buffer)@ == with_noise(old(memory_buffer)@, noise@),
            if old(memory_buffer)@.len() <= MAX_MESSAGE_SIZE {
                &&& sealed@.len() == old(memory_buffer)@.len() + TAG_SIZE
                &&& exists|key: Seq<u8>, nonce: Seq<u8>|
                    key.len() == 16 && nonce.len() == 12 && sealed@ == #[trigger] aes_gcm_seal(
                        key,
                        nonce,
                        final(memory_buffer)@,
                    )
            } else {
                sealed@.len() == 0
            },
    {
        apply_gaussian_noise_on_buffer(memory_buffer, noise);
        assert(memory_buffer@ =~= with_noise(old(memory_buffer)@, noise@));
        encrypt_buffer_aes(memory_buffer, &mut self.rng)
    }

    /// Scrambles a scratch buffer of the configured size, which starts as
    /// zeros, and gives it back.
    pub fn start(&mut self, noise: &[i8]) -> (buffer: Vec<u8>)
        ensures
            final(self).stealth() == old(self).stealth(),
            final(self).size() == old(self).size(),
            buffer@.len() == old(self).size(),
            scrambled(
                Seq::new(old(self).size() as nat, |i: int| 0u8),
                buffer@,
                old(self).stealth(),
                noise@,
            ),
    {
        let mut buffer: Vec<u8> = Vec::new();
        while buffer.len() < self.memory_size
            invariant
                buffer@.len() <= self.memory_size,
                self.memory_size == old(self).memory_size,
                self.stealth_mode == old(self).stealth_mode,
                forall|i: int| 0 <= i < buffer@.len() ==> buffer@[i] == 0u8,
            decreases self.memory_size - buffer@.len(),
        {
            buffer.push(0);
        }
        assert(buffer@ =~= Seq::new(old(self).size() as nat, |i: int| 0u8));
        self.scramble(buffer.as_mut_slice(), noise);
        buffer
    }

    /// Applies the measures of the scrambler's mode to a whole buffer.
    pub fn scramble(&mut self, buffer: &mut [u8], noise: &[i8])
        ensures
            final(self).stealth() == old(self).stealth(),
            final(self).size() == old(self).size(),
            final(buffer)@.len() == old(buffer)@.len(),
            scrambled(old(buffer)@, final(buffer)@, old(self).stealth(), noise@),
    {
        self.apply_basic_measures(buffer);
        let ghost middle = buffer@;
        if self.stealth_mode {
            let _ = self.apply_stealth_measures(buffer, noise);
            assert(basic_scramble(old(buffer)@, middle) && buffer@ == with_noise(
                middle,
                noise@,
            ));
        }
    }

    /// Scrambles the regions of `memory` that `fragments` name, each by its
    /// offset and its size, one after the other. A region of no bytes, or
    /// one that does not lie in `memory`, is passed over. No byte outside
    /// the regions changes.
    pub fn scramble_memory_fragments(
        &mut self,
        memory: &mut [u8],
        fragments: &[(usize, usize)],
        noise: &[i8],
    )
        ensures
            final(self).stealth() == old(self).stealth(),
            final(self).size() == old(self).size(),
            final(memory)@.len() == old(memory)@.len(),
            fragments_scrambled(
                old(memory)@,
                final(memory)@,
                fragments@,
                fragments@.len() as int,
                old(self).stealth(),
                noise@,
            ),
            forall|place: int|
                0 <= place < old(memory)@.len() && !in_some_region(
                    fragments@,
                    fragments@.len() as int,
                    place,
                ) ==> #[trigger] final(memory)@[place] == old(memory)@[place],
    {
        let mut k: usize = 0;
        while k < fragments.len()
            invariant
                k <= fragments@.len(),
                self.stealth() == old(self).stealth(),
                self.size() == old(self).size(),
                memory@.len() == old(memory)@.len(),
                fragments_scrambled(
                    old(memory)@,
                    memory@,
                    fragments@,
                    k as int,
                    old(self).stealth(),
                    noise@,
                ),
                forall|place: int|
                    0 <= place < old(memory)@.len() && !in_some_region(
                        fragments@,
                        k as int,
                        place,
                    ) ==> #[trigger] memory@[place] == old(memory)@[place],
            decreases fragments@.len() - k,
        {
            let (offset, size) = fragments[k];
            let ghost before = memory@;
            self.scramble_region(memory, offset, size, noise);
            proof {
                assert(fragments@[k as int] == (offset, size));
                assert(region_scrambled(
                    before,
                    memory@,
                    fragments@[k as int],
                    old(self).stealth(),
                    noise@,
                ));
                lemma_one_more_region(
                    old(memory)@,
                    before,
                    memory@,
                    fragments@,
                    k + 1,
                    old(self).stealth(),
                    noise@,
                );
                assert forall|place: int|
                    0 <= place < old(memory)@.len() && !in_some_region(
                        fragments@,
                        k + 1,
                        place,
                    ) implies #[trigger] memory@[place] == old(memory)@[place] by {
                    assert(!in_region(fragments@[k as int], place));
                    assert(!in_some_region(fragments@, k as int, place)) by {
                        if in_some_region(fragments@, k as int, place) {
                            let j = choose|j: int|
                                0 <= j < k && j < fragments@.len() && in_region(
                                    #[trigger] fragments@[j],
                                    place,
                                );
                            assert(in_region(fragments@[j], place));
                        }
                    }
                    assert(memory@[place] == before[place]);
                }
            }
            k = k + 1;
        }
    }

    /// Scrambles the `size` bytes of `memory` from `offset` on, and leaves
    /// the rest as it is. Nothing happens where the region has no bytes or
    /// does not lie in `memory`.
    pub fn scramble_region(&mut self, memory: &mut [u8], offset: usize, size: usize, noise: &[i8])
        ensures
            final(self).stealth() == old(self).stealth(),
            final(self).size() == old(self).size(),
            final(memory)@.len() == old(memory)@.len(),
            forall|place: int|
                0 <= place < old(memory)@.len() && !in_region((offset, size), place)
                    ==> #[trigger] final(memory)@[place] == old(memory)@[place],
            size > 0 && offset + size <= old(memory)@.len() ==> scrambled(
                old(memory)@.subrange(offset as int, offset + size),
                final(memory)@.subrange(offset as int, offset + size),
                old(self).stealth(),
                noise@,
            ),
            !(size > 0 && offset + size <= old(memory)@.len()) ==> final(memory)@ == old(
                memory,
            )@,
            region_scrambled(
                old(memory)@,
                final(memory)@,
                (offset, size),
                old(self).stealth(),
                noise@,
            ),
    {
        let length = memory.len();
        if size == 0 || offset > length || size > length - offset {
            return ;
        }
        let mut region: Vec<u8> = Vec::new();
        let mut i: usize = 0;
        while i < size
            invariant
                i <= size,
                offset + size <= length,
                length == memory@.len(),
                region@.len() == i,
                forall|j: int| 0 <= j < i ==> #[trigger] region@[j] == memory@[offset + j],
            decreases size - i,
        {
            region.push(memory[offset + i]);
            i = i + 1;
        }
        assert(region@ =~= old(memory)@.subrange(offset as int, offset + size));
        self.scramble(region.as_mut_slice(), noise);
        let mut i: usize = 0;
        while i < size
            invariant
                i <= size,
                offset + size <= length,
                length == memory@.len(),
                length == old(memory)@.len(),
                region@.len() == size,
                forall|place: int|
                    offset <= place < offset + i ==> #[trigger] memory@[place] == region@[place
                        - offset],
                forall|place: int|
                    0 <= place < length && !in_region((offset, size), place)
                        ==> #[trigger] memory@[place] == old(memory)@[place],
            decreases size - i,
        {
            memory[offset + i] = region[i];
            i = i + 1;
        }
        assert(memory@.subrange(offset as int, offset + size) =~= region@);
    }
}

} // verus!
