//! Overwriting of the bytes that lie next to protected regions of a buffer.

use super::Tools;
use crate::random::{std_rng_gen_range_u32, std_rng_gen_u8};
use crate::utils::statistics_probability::{
    create_random_distribution, prefix_weight, total_weight, weighted_random_choice,
};
use rand::rngs::StdRng;
use vstd::prelude::*;

verus! {

/// The byte that stands in for a sample where none was given: the mean of
/// the distribution that samples are drawn from.
pub const SAMPLE_MEAN: u8 = 150;

/// The sample for a position: samples are taken in turn and go round.
pub open spec fn sample_at(samples: Seq<u8>, position: int) -> u8 {
    if samples.len() == 0 {
        SAMPLE_MEAN
    } else {
        samples[position % (samples.len() as int)]
    }
}

/// The byte that a pattern puts at a position: a random byte for pattern 0,
/// `0xFF` for pattern 1, the position modulo 256 for pattern 2, and a sample
/// for every other pattern.
pub open spec fn spec_tamper_byte(choice: usize, position: usize, random: u8, sample: u8) -> u8 {
    if choice == 0 {
        random
    } else if choice == 1 {
        0xFFu8
    } else if choice == 2 {
        (position % 256) as u8
    } else {
        sample
    }
}

/// The byte that a pattern puts at a position.
pub fn tamper_byte(choice: usize, position: usize, random: u8, sample: u8) -> (byte: u8)
    ensures
        byte == spec_tamper_byte(choice, position, random, sample),
{
    if choice == 0 {
        random
    } else if choice == 1 {
        0xFF
    } else if choice == 2 {
        (position % 256) as u8
    } else {
        sample
    }
}

/// Position `place` lies in the region that starts at `region.0` and has
/// `region.1` bytes.
pub open spec fn in_region(region: (usize, usize), place: int) -> bool {
    region.0 <= place < region.0 + region.1
}

/// Position `place` lies next to the region, within `radius` bytes before
/// its first byte or after its last.
pub open spec fn in_halo(region: (usize, usize), radius: usize, place: int) -> bool {
    ||| region.0 - radius <= place < region.0
    ||| region.0 + region.1 <= place < region.0 + region.1 + radius
}

/// Position `place` lies next to one of the first `count` regions.
pub open spec fn in_some_halo(
    regions: Seq<(usize, usize)>,
    count: int,
    radius: usize,
    place: int,
) -> bool {
    exists|k: int|
        0 <= k < count && k < regions.len() && in_halo(#[trigger] regions[k], radius, place)
}

/// No byte of a region lies next to that region.
pub proof fn lemma_region_not_in_own_halo(region: (usize, usize), radius: usize, place: int)
    requires
        in_region(region, place),
    ensures
        !in_halo(region, radius, place),
{
}

/// Position `place` lies in one of the first `count` regions.
pub open spec fn in_some_region(regions: Seq<(usize, usize)>, count: int, place: int) -> bool {
    exists|k: int| 0 <= k < count && k < regions.len() && in_region(#[trigger] regions[k], place)
}

/// Whether `place` lies in one of the regions.
pub fn lies_in_region(fragments: &[(usize, usize)], place: usize) -> (inside: bool)
    ensures
        inside == in_some_region(fragments@, fragments@.len() as int, place as int),
{
    let mut k: usize = 0;
    while k < fragments.len()
        invariant
            k <= fragments@.len(),
            !in_some_region(fragments@, k as int, place as int),
        decreases fragments@.len() - k,
    {
        let (ptr, size) = fragments[k];
        if ptr <= place && place - ptr < size {
            assert(in_region(fragments@[k as int], place as int));
            return true;
        }
        proof {
            assert(!in_region(fragments@[k as int], place as int));
            if in_some_region(fragments@, k + 1, place as int) {
                let j = choose|j: int|
                    0 <= j < k + 1 && j < fragments@.len() && in_region(
                        #[trigger] fragments@[j],
                        place as int,
                    );
                if j == k {
                } else {
                    assert(in_region(fragments@[j], place as int));
                    assert(in_some_region(fragments@, k as int, place as int));
                }
            }
        }
        k = k + 1;
    }
    false
}

/// The bytes next to a region as two ranges, each a first place and a
/// number of places: the range before the region's first byte and the range
/// after its last. A range is cut where places end.
pub fn halo_ranges(region: (usize, usize), tamper_range: usize) -> (ranges: (
    (usize, usize),
    (usize, usize),
))
    ensures
        ranges.0.0 == (if region.0 >= tamper_range {
            region.0 - tamper_range
        } else {
            0
        }),
        ranges.0.0 + ranges.0.1 == region.0,
        ranges.1 == (if region.0 + region.1 <= usize::MAX {
            (
                (region.0 + region.1) as usize,
                (if tamper_range <= usize::MAX - (region.0 + region.1) {
                    tamper_range
                } else {
                    (usize::MAX - (region.0 + region.1)) as usize
                }),
            )
        } else {
            (usize::MAX, 0usize)
        }),
        forall|place: int|
            0 <= place < usize::MAX ==> (in_halo(region, tamper_range, place) <==> (ranges.0.0
                <= place < ranges.0.0 + ranges.0.1 || ranges.1.0 <= place < ranges.1.0
                + ranges.1.1)),
{
    let (ptr, size) = region;
    let start_address = if ptr >= tamper_range {
        ptr - tamper_range
    } else {
        0
    };
    let before = (start_address, ptr - start_address);
    let after = if size <= usize::MAX - ptr {
        let region_end = ptr + size;
        let length = if tamper_range <= usize::MAX - region_end {
            tamper_range
        } else {
            usize::MAX - region_end
        };
        (region_end, length)
    } else {
        (usize::MAX, 0)
    };
    (before, after)
}

/// A buffer after a block was written over it from `start` on, where the
/// block lies in the buffer and outside every region.
pub open spec fn written_outside(
    memory: Seq<u8>,
    start: int,
    block: Seq<u8>,
    regions: Seq<(usize, usize)>,
) -> Seq<u8> {
    Seq::new(
        memory.len(),
        |place: int|
            if start <= place < start + block.len() && !in_some_region(
                regions,
                regions.len() as int,
                place,
            ) {
                block[place - start]
            } else {
                memory[place]
            },
    )
}

/// Writes `block` over `memory` from `start` on, as far as it lies in
/// `memory`, and passes over every byte that lies in a region.
pub fn write_block_outside(
    memory: &mut [u8],
    start: usize,
    block: &[u8],
    fragments: &[(usize, usize)],
)
    ensures
        final(memory)@ == written_outside(old(memory)@, start as int, block@, fragments@),
{
    let length = memory.len();
    let mut i: usize = 0;
    while i < block.len() && i < length && start < length - i
        invariant
            length == memory@.len(),
            length == old(memory)@.len(),
            i <= block@.len(),
            forall|place: int|
                0 <= place < length ==> #[trigger] memory@[place] == (if start <= place < start
                    + i && !in_some_region(fragments@, fragments@.len() as int, place) {
                    block@[place - start]
                } else {
                    old(memory)@[place]
                }),
        decreases block@.len() - i,
    {
        if !lies_in_region(fragments, start + i) {
            memory[start + i] = block[i];
        }
        i = i + 1;
    }
    assert(memory@ =~= written_outside(old(memory)@, start as int, block@, fragments@));
}

/// A buffer after a block was written over it from `start` on, as far as
/// the block lies in the buffer.
pub open spec fn written(memory: Seq<u8>, start: int, block: Seq<u8>) -> Seq<u8> {
    Seq::new(
        memory.len(),
        |place: int|
            if start <= place < start + block.len() {
                block[place - start]
            } else {
                memory[place]
            },
    )
}

/// Writes `block` over `memory` from `start` on, as far as it lies in
/// `memory`.
pub fn write_block(memory: &mut [u8], start: usize, block: &[u8])
    ensures
        final(memory)@ == written(old(memory)@, start as int, block@),
{
    let length = memory.len();
    let mut i: usize = 0;
    while i < block.len() && i < length && start < length - i
        invariant
            length == memory@.len(),
            length == old(memory)@.len(),
            i <= block@.len(),
            forall|place: int|
                0 <= place < length ==> #[trigger] memory@[place] == (if start <= place < start
                    + i {
                    block@[place - start]
                } else {
                    old(memory)@[place]
                }),
        decreases block@.len() - i,
    {
        memory[start + i] = block[i];
        i = i + 1;
    }
    assert(memory@ =~= written(old(memory)@, start as int, block@));
}

/// Overwrites memory with patterns chosen at random.
pub struct MemoryHeapTamper {
    rng: StdRng,
}

impl MemoryHeapTamper {
    /// The generator that the tamperer draws from.
    pub closed spec fn generator(&self) -> StdRng {
        self.rng
    }

    /// A tamperer that draws from `rng`.
    pub fn new(rng: StdRng) -> (tamper: MemoryHeapTamper)
        ensures
            tamper.generator() == rng,
    {
        MemoryHeapTamper { rng }
    }

    /// The tool's name.
    pub fn name(&self) -> (tool: Tools)
        ensures
            tool == Tools::MemoryHeapModifier,
    {
        Tools::MemoryHeapModifier
    }

    /// The number of rounds of one run: from 3 to 15.
    pub fn round_count(&mut self) -> (rounds: u32)
        ensures
            3 <= rounds <= 15,
    {
        std_rng_gen_range_u32(&mut self.rng, 3, 15)
    }

    /// A block of `block_size` bytes, each from a pattern that is chosen by
    /// weight: a random byte, `0xFF`, the byte's position modulo 256, or a
    /// sample. The four weights are drawn from 10 to 100 once for the block.
    /// Any byte may stand at any place, since one pattern is a random byte.
    pub fn tamper_memory(&mut self, block_size: usize, samples: &[u8]) -> (block: Vec<u8>)
        ensures
            block@.len() == block_size,
    {
        let pattern_distribution = create_random_distribution(&mut self.rng, 10, 100, 4);
        proof {
            let weights = pattern_distribution@;
            reveal_with_fuel(prefix_weight, 5);
            assert(weights[0] >= 10 && weights[1] >= 10 && weights[2] >= 10 && weights[3] >= 10);
            assert(weights[0] <= 100 && weights[1] <= 100 && weights[2] <= 100 && weights[3]
                <= 100);
            assert(total_weight(weights) == weights[0] + weights[1] + weights[2] + weights[3]);
        }
        let mut block: Vec<u8> = Vec::new();
        let mut i: usize = 0;
        while i < block_size
            invariant
                i <= block_size,
                block@.len() == i,
                0 < total_weight(pattern_distribution@) <= u64::MAX,
            decreases block_size - i,
        {
            let pattern_choice = weighted_random_choice(
                pattern_distribution.as_slice(),
                &mut self.rng,
            );
            let random = if pattern_choice == 0 {
                std_rng_gen_u8(&mut self.rng)
            } else {
                0
            };
            let sample = if samples.len() == 0 {
                SAMPLE_MEAN
            } else {
                samples[i % samples.len()]
            };
            block.push(tamper_byte(pattern_choice, i, random, sample));
            i = i + 1;
        }
        block
    }

    /// Overwrites the `block_size` bytes of `memory` from `start` on with a
    /// block of `tamper_memory`, as far as they lie in `memory`. No other
    /// byte changes.
    pub fn tamper_memory_pointer(
        &mut self,
        memory: &mut [u8],
        start: usize,
        block_size: usize,
        samples: &[u8],
    )
        ensures
            final(memory)@.len() == old(memory)@.len(),
            exists|block: Seq<u8>|
                block.len() <= block_size && final(memory)@ == #[trigger] written(
                    old(memory)@,
                    start as int,
                    block,
                ),
            forall|place: int|
                0 <= place < old(memory)@.len() && !(start <= place < start + block_size)
                    ==> #[trigger] final(memory)@[place] == old(memory)@[place],
    {
        let length = memory.len();
        let count = if start >= length {
            0
        } else if block_size > length - start {
            length - start
        } else {
            block_size
        };
        let tampered_memory = self.tamper_memory(count, samples);
        write_block(memory, start, tampered_memory.as_slice());
        assert(memory@ == written(old(memory)@, start as int, tampered_memory@));
    }

    /// Overwrites the `block_size` bytes of `memory` from `start` on with a
    /// block of `tamper_memory`, as far as they lie in `memory`, and passes
    /// over every byte that lies in a region. No other byte changes.
    pub fn tamper_memory_outside(
        &mut self,
        memory: &mut [u8],
        start: usize,
        block_size: usize,
        fragments: &[(usize, usize)],
        samples: &[u8],
    )
        ensures
            final(memory)@.len() == old(memory)@.len(),
            exists|block: Seq<u8>|
                block.len() <= block_size && final(memory)@ == #[trigger] written_outside(
                    old(memory)@,
                    start as int,
                    block,
                    fragments@,
                ),
            forall|place: int|
                0 <= place < old(memory)@.len() && (!(start <= place < start + block_size)
                    || in_some_region(fragments@, fragments@.len() as int, place))
                    ==> #[trigger] final(memory)@[place] == old(memory)@[place],
    {
        let length = memory.len();
        let count = if start >= length {
            0
        } else if block_size > length - start {
            length - start
        } else {
            block_size
        };
        let tampered_memory = self.tamper_memory(count, samples);
        write_block_outside(memory, start, tampered_memory.as_slice(), fragments);
        assert(memory@ == written_outside(
            old(memory)@,
            start as int,
            tampered_memory@,
            fragments@,
        ));
    }

    /// Overwrites the bytes next to each region of `fragments`, within
    /// `tamper_range` bytes before its first byte and after its last. No
    /// byte that lies in a region changes, also where it lies next to
    /// another region, and no byte that lies next to no region.
    pub fn tamper_memory_fragments_adjacent(
        &mut self,
        memory: &mut [u8],
        fragments: &[(usize, usize)],
        tamper_range: usize,
        samples: &[u8],
    )
        ensures
            final(memory)@.len() == old(memory)@.len(),
            forall|place: int|
                0 <= place < old(memory)@.len() && in_some_region(
                    fragments@,
                    fragments@.len() as int,
                    place,
                ) ==> #[trigger] final(memory)@[place] == old(memory)@[place],
            forall|place: int|
                0 <= place < old(memory)@.len() && !in_some_halo(
                    fragments@,
                    fragments@.len() as int,
                    tamper_range,
                    place,
                ) ==> #[trigger] final(memory)@[place] == old(memory)@[place],
    {
        let mut k: usize = 0;
        while k < fragments.len()
            invariant
                k <= fragments@.len(),
                memory@.len() == old(memory)@.len(),
                forall|place: int|
                    0 <= place < old(memory)@.len() && in_some_region(
                        fragments@,
                        fragments@.len() as int,
                        place,
                    ) ==> #[trigger] memory@[place] == old(memory)@[place],
                forall|place: int|
                    0 <= place < old(memory)@.len() && !in_some_halo(
                        fragments@,
                        k as int,
                        tamper_range,
                        place,
                    ) ==> #[trigger] memory@[place] == old(memory)@[place],
            decreases fragments@.len() - k,
        {
            let ghost before = memory@;
            let (before_range, after_range) = halo_ranges(fragments[k], tamper_range);
            self.tamper_memory_outside(
                memory,
                before_range.0,
                before_range.1,
                fragments,
                samples,
            );
            let ghost middle = memory@;
            self.tamper_memory_outside(memory, after_range.0, after_range.1, fragments, samples);
            proof {
                assert forall|place: int|
                    0 <= place < old(memory)@.len() && !in_some_halo(
                        fragments@,
                        k + 1,
                        tamper_range,
                        place,
                    ) implies #[trigger] memory@[place] == old(memory)@[place] by {
                    assert(!in_halo(fragments@[k as int], tamper_range, place));
                    assert(!in_some_halo(fragments@, k as int, tamper_range, place)) by {
                        if in_some_halo(fragments@, k as int, tamper_range, place) {
                            let j = choose|j: int|
                                0 <= j < k && j < fragments@.len() && in_halo(
                                    #[trigger] fragments@[j],
                                    tamper_range,
                                    place,
                                );
                            assert(in_halo(fragments@[j], tamper_range, place));
                        }
                    }
                    assert(middle[place] == before[place]);
                    assert(memory@[place] == middle[place]);
                }
                assert forall|place: int|
                    0 <= place < old(memory)@.len() && in_some_region(
                        fragments@,
                        fragments@.len() as int,
                        place,
                    ) implies #[trigger] memory@[place] == old(memory)@[place] by {
                    assert(middle[place] == before[place]);
                    assert(memory@[place] == middle[place]);
                }
            }
            k = k + 1;
        }
    }
}

} // verus!
