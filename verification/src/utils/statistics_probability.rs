//! Random choices and the mixing of seeds.

use crate::random::{
    os_rng_try_fill_bytes, std_rng_fill_bytes, std_rng_from_seed, std_rng_gen_range_u32,
    std_rng_gen_range_u64,
};
use crate::tools::config::Features;
use rand::rngs::StdRng;
use vstd::prelude::*;
use vstd::seq_lib::to_multiset_update;

verus! {

/// Swaps of two seed bytes that are made where seeds are not enhanced.
pub const PLAIN_SWAPS: u32 = 100;

/// `size` numbers, each drawn from `low..=high`.
pub fn create_random_distribution(rng: &mut StdRng, low: u32, high: u32, size: usize) -> (values:
    Vec<u32>)
    requires
        low <= high,
    ensures
        values@.len() == size,
        forall|i: int| 0 <= i < size ==> low <= #[trigger] values@[i] <= high,
{
    let mut values: Vec<u32> = Vec::new();
    while values.len() < size
        invariant
            low <= high,
            values@.len() <= size,
            forall|i: int| 0 <= i < values@.len() ==> low <= #[trigger] values@[i] <= high,
        decreases size - values@.len(),
    {
        let value = std_rng_gen_range_u32(rng, low, high);
        values.push(value);
    }
    values
}

/// The sum of the first `count` weights.
pub open spec fn prefix_weight(weights: Seq<u32>, count: int) -> nat
    decreases count,
{
    if count <= 0 || count > weights.len() {
        0
    } else {
        prefix_weight(weights, count - 1) + weights[count - 1] as nat
    }
}

/// The sum of all weights.
pub open spec fn total_weight(weights: Seq<u32>) -> nat {
    prefix_weight(weights, weights.len() as int)
}

/// The sums of the weights grow with the number of weights summed.
proof fn lemma_prefix_weight_grows(weights: Seq<u32>, fewer: int, more: int)
    requires
        0 <= fewer <= more <= weights.len(),
    ensures
        prefix_weight(weights, fewer) <= prefix_weight(weights, more),
    decreases more - fewer,
{
    if fewer < more {
        lemma_prefix_weight_grows(weights, fewer, more - 1);
    }
}

/// The index that a ticket falls on when each index holds as many tickets
/// as its weight: the first index at which the summed weights exceed the
/// ticket.
pub fn weighted_pick(weights: &[u32], ticket: u64) -> (index: usize)
    requires
        ticket < total_weight(weights@),
    ensures
        index < weights@.len(),
        prefix_weight(weights@, index as int) <= ticket < prefix_weight(weights@, index + 1),
        weights@[index as int] > 0,
{
    let mut index: usize = 0;
    let mut below: u64 = 0;
    loop
        invariant
            index < weights@.len(),
            below == prefix_weight(weights@, index as int),
            below <= ticket < total_weight(weights@),
        decreases weights@.len() - index,
    {
        let weight = weights[index];
        if ticket - below < weight as u64 {
            return index;
        }
        proof {
            if index + 1 == weights@.len() {
                assert(false);
            }
        }
        below = below + weight as u64;
        index = index + 1;
    }
}

/// An index chosen at random, each with a chance in proportion to its
/// weight. An index of weight zero is never chosen.
pub fn weighted_random_choice(weights: &[u32], rng: &mut StdRng) -> (index: usize)
    requires
        0 < total_weight(weights@) <= u64::MAX,
    ensures
        index < weights@.len(),
        weights@[index as int] > 0,
{
    let total = sum_weights(weights);
    let ticket = std_rng_gen_range_u64(rng, 0, total - 1);
    weighted_pick(weights, ticket)
}

/// The sum of all weights.
fn sum_weights(weights: &[u32]) -> (total: u64)
    requires
        total_weight(weights@) <= u64::MAX,
    ensures
        total == total_weight(weights@),
{
    let mut total: u64 = 0;
    let mut i: usize = 0;
    while i < weights.len()
        invariant
            i <= weights@.len(),
            total == prefix_weight(weights@, i as int),
            total_weight(weights@) <= u64::MAX,
        decreases weights@.len() - i,
    {
        proof {
            lemma_prefix_weight_grows(weights@, i + 1, weights@.len() as int);
        }
        total = total + weights[i] as u64;
        i = i + 1;
    }
    total
}

/// The byte of lane `lane` after the first `count` bytes of entropy were
/// folded into a seed: each byte of entropy is xored into the lane that its
/// place has modulo 32.
pub open spec fn mixed_byte(start: u8, entropy: Seq<u8>, lane: int, count: int) -> u8
    decreases count,
{
    if count <= 0 || count > entropy.len() {
        start
    } else if (count - 1) % 32 == lane {
        mixed_byte(start, entropy, lane, count - 1) ^ entropy[count - 1]
    } else {
        mixed_byte(start, entropy, lane, count - 1)
    }
}

/// The operating system has no entropy to give.
#[derive(Clone, Copy, Debug, PartialEq, Eq, Structural)]
pub enum EntropyError {
    Unavailable,
}

/// Byte by byte, the exclusive or of two seeds.
pub open spec fn xored(first: Seq<u8>, second: Seq<u8>) -> Seq<u8> {
    Seq::new(32, |i: int| first[i] ^ second[i])
}

/// A seed with entropy folded in: byte `i` of the entropy is xored into
/// byte `i % 32` of the seed.
pub open spec fn folded(seed: Seq<u8>, entropy: Seq<u8>) -> Seq<u8> {
    Seq::new(32, |lane: int| mixed_byte(seed[lane], entropy, lane, entropy.len() as int))
}

/// The seed before its bytes are swapped: the two drawn seeds xored, with
/// the auxiliary entropy folded in where seeds are enhanced.
pub open spec fn mixed_seed(
    os_seed: Seq<u8>,
    entropy_seed: Seq<u8>,
    lorenz_entropy: Seq<u8>,
    enhanced: bool,
) -> Seq<u8> {
    if enhanced {
        folded(xored(os_seed, entropy_seed), lorenz_entropy)
    } else {
        xored(os_seed, entropy_seed)
    }
}

/// Byte by byte, the exclusive or of two seeds.
pub fn xor_seeds(first: &[u8; 32], second: &[u8; 32]) -> (combined: [u8; 32])
    ensures
        forall|i: int| 0 <= i < 32 ==> #[trigger] combined@[i] == first@[i] ^ second@[i],
        combined@ == xored(first@, second@),
{
    let mut combined: [u8; 32] = [0u8;32];
    let mut i: usize = 0;
    while i < 32
        invariant
            i <= 32,
            forall|j: int| 0 <= j < i ==> #[trigger] combined@[j] == first@[j] ^ second@[j],
        decreases 32 - i,
    {
        combined[i] = first[i] ^ second[i];
        i = i + 1;
    }
    assert(combined@ =~= xored(first@, second@));
    combined
}

/// Folds auxiliary entropy into a seed: byte `i` of the entropy is xored
/// into byte `i % 32` of the seed.
pub fn enhance_seed_with_lorenz_entropy(seed: &mut [u8; 32], lorenz_entropy: &[u8])
    ensures
        forall|lane: int|
            0 <= lane < 32 ==> #[trigger] final(seed)@[lane] == mixed_byte(
                old(seed)@[lane],
                lorenz_entropy@,
                lane,
                lorenz_entropy@.len() as int,
            ),
        final(seed)@ == folded(old(seed)@, lorenz_entropy@),
{
    let mut i: usize = 0;
    while i < lorenz_entropy.len()
        invariant
            i <= lorenz_entropy@.len(),
            forall|lane: int|
                0 <= lane < 32 ==> #[trigger] seed@[lane] == mixed_byte(
                    old(seed)@[lane],
                    lorenz_entropy@,
                    lane,
                    i as int,
                ),
        decreases lorenz_entropy@.len() - i,
    {
        let lane: usize = i % 32;
        let mixed: u8 = seed[lane] ^ lorenz_entropy[i];
        seed[lane] = mixed;
        i = i + 1;
    }
    assert(seed@ =~= folded(old(seed)@, lorenz_entropy@));
}

/// Swaps two bytes of a seed. The seed keeps its bytes.
pub fn swap_seed_bytes(seed: &mut [u8; 32], first: usize, second: usize)
    requires
        first < 32,
        second < 32,
    ensures
        final(seed)@ == old(seed)@.update(first as int, old(seed)@[second as int]).update(
            second as int,
            old(seed)@[first as int],
        ),
        final(seed)@.to_multiset() == old(seed)@.to_multiset(),
{
    let a = seed[first];
    let b = seed[second];
    seed[first] = b;
    seed[second] = a;
    proof {
        let start = old(seed)@;
        let half = start.update(first as int, b);
        to_multiset_update(start, first as int, b);
        to_multiset_update(half, second as int, a);
        start.to_multiset_ensures();
        assert(start.contains(a));
        assert(start.contains(b));
        assert(half[second as int] == b);
        assert(seed@ =~= half.update(second as int, a));
        assert(start.to_multiset().insert(b).remove(a).insert(a).remove(b)
            =~= start.to_multiset());
    }
}

/// Swaps pairs of seed bytes at random places: `PLAIN_SWAPS` pairs, or up
/// to 999 where seeds are enhanced. The seed keeps its bytes, in another
/// order.
fn shuffle_seed(seed: &mut [u8; 32], rng: &mut StdRng, enhanced: bool)
    ensures
        final(seed)@.to_multiset() == old(seed)@.to_multiset(),
{
    let shuffle_range: u32 = if enhanced {
        std_rng_gen_range_u32(rng, 0, 999)
    } else {
        PLAIN_SWAPS
    };
    let mut round: u32 = 0;
    while round < shuffle_range
        invariant
            round <= shuffle_range,
            seed@.to_multiset() == old(seed)@.to_multiset(),
        decreases shuffle_range - round,
    {
        let idx1 = std_rng_gen_range_u32(rng, 0, 31) as usize;
        let idx2 = std_rng_gen_range_u32(rng, 0, 31) as usize;
        swap_seed_bytes(seed, idx1, idx2);
        round = round + 1;
    }
}

/// Mixes two drawn seeds into one: they are xored byte by byte, the
/// auxiliary entropy is folded in where seeds are enhanced, and at the end
/// pairs of bytes are swapped at places drawn from `rng`. The seed that comes
/// back holds the bytes of the mixed seed, in another order.
pub fn mix_seed(
    os_seed: &[u8; 32],
    entropy_seed: &[u8; 32],
    lorenz_entropy: &[u8],
    enhanced: bool,
    rng: &mut StdRng,
) -> (seed: [u8; 32])
    ensures
        seed@.to_multiset() == mixed_seed(
            os_seed@,
            entropy_seed@,
            lorenz_entropy@,
            enhanced,
        ).to_multiset(),
{
    let mut combined_seed_bytes = xor_seeds(os_seed, entropy_seed);
    if enhanced {
        enhance_seed_with_lorenz_entropy(&mut combined_seed_bytes, lorenz_entropy);
    }
    shuffle_seed(&mut combined_seed_bytes, rng, enhanced);
    combined_seed_bytes
}

/// 32 bytes from the operating system, or the error where it has none.
fn draw_os_seed() -> (r: Result<[u8; 32], EntropyError>) {
    let mut seed: [u8; 32] = [0u8;32];
    match os_rng_try_fill_bytes(&mut seed) {
        Ok(()) => Ok(seed),
        Err(_) => Err(EntropyError::Unavailable),
    }
}

/// A seed mixed by `mix_seed` from 32 bytes of the operating system and 32
/// bytes of a generator that the operating system seeded. The auxiliary
/// entropy is folded in where the features ask for enhanced seeds. The call
/// fails where the operating system has no entropy to give.
pub fn generate_seed(features: &Features, lorenz_entropy: &[u8]) -> (r: Result<
    [u8; 32],
    EntropyError,
>) {
    let generator_seed = match draw_os_seed() {
        Ok(seed) => seed,
        Err(e) => {
            return Err(e);
        },
    };
    let mut rng = std_rng_from_seed(generator_seed);
    let os_seed_bytes = match draw_os_seed() {
        Ok(seed) => seed,
        Err(e) => {
            return Err(e);
        },
    };
    let mut entropy_seed_bytes: [u8; 32] = [0u8;32];
    std_rng_fill_bytes(&mut rng, &mut entropy_seed_bytes);
    Ok(
        mix_seed(
            &os_seed_bytes,
            &entropy_seed_bytes,
            lorenz_entropy,
            features.enhanced_seed_generation,
            &mut rng,
        ),
    )
}

/// A generator with a seed of `generate_seed`. No two calls are meant to
/// give the same generator.
pub fn create_seeded_rng(features: &Features, lorenz_entropy: &[u8]) -> (r: Result<
    StdRng,
    EntropyError,
>) {
    match generate_seed(features, lorenz_entropy) {
        Ok(seed) => Ok(std_rng_from_seed(seed)),
        Err(e) => Err(e),
    }
}

} // verus!
