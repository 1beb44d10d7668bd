//! Transformations of byte buffers that make their content useless to an
//! onlooker, and the layout of a block of words.

use crate::cipher::{
    aes128_gcm_encrypt, aes128_gcm_new, aes_gcm_seal, MAX_MESSAGE_SIZE, TAG_SIZE,
};
use crate::random::std_rng_gen_u8;
use crate::utils::key_generator::{generate_nonce, random_bytes};
use crate::utils::statistics_probability::create_random_distribution;
use rand::rngs::StdRng;
use std::alloc::{Layout, LayoutError};
use vstd::prelude::*;

verus! {

/// The size and alignment of a block of memory, carried through.
#[verifier::external_type_specification]
#[verifier::external_body]
pub struct ExLayout(Layout);

/// The error of `Layout::from_size_align`.
#[verifier::external_type_specification]
#[verifier::external_body]
pub struct ExLayoutError(LayoutError);

/// The number of bytes that a layout asks for.
pub uninterp spec fn layout_size(layout: Layout) -> nat;

/// The alignment that a layout asks for.
pub uninterp spec fn layout_align(layout: Layout) -> nat;

/// `Layout::from_size_align`: the layout of that size and alignment. It
/// fails exactly when the alignment is no power of two, or the size, rounded
/// up to the alignment, is more than `isize::MAX`.
#[verifier::external_body]
pub(crate) fn layout_from_size_align(size: usize, align: usize) -> (r: Result<Layout, LayoutError>)
    ensures
        r is Ok <==> vstd::layout::valid_layout(size, align),
        r matches Ok(layout) ==> layout_size(layout) == size && layout_align(layout) == align,
{
    Layout::from_size_align(size, align)
}

/// Bytes in a word of a block.
pub const WORD_SIZE: usize = 4;

/// The layout of a block of `block_size` words of four bytes, aligned to a
/// word, or `None` where so many words are more than a block can hold.
pub fn create_layout_from_size(block_size: usize) -> (r: Option<Layout>)
    ensures
        match r {
            Some(layout) => {
                &&& block_size * WORD_SIZE <= isize::MAX - 3
                &&& layout_size(layout) == block_size * WORD_SIZE
                &&& layout_align(layout) == WORD_SIZE
            },
            None => block_size * WORD_SIZE > isize::MAX - 3,
        },
{
    if block_size > (isize::MAX as usize - 3) / WORD_SIZE {
        return None;
    }
    proof {
        reveal_with_fuel(vstd::arithmetic::power2::is_pow2, 3);
        assert(vstd::arithmetic::power2::is_pow2(4));
        assert(isize::MAX as int % 4 == 3) by {
            assert(isize::MAX == 0x7fff_ffff || isize::MAX == 0x7fff_ffff_ffff_ffff);
        }
    }
    match layout_from_size_align(block_size * WORD_SIZE, WORD_SIZE) {
        Ok(layout) => Some(layout),
        Err(_) => None,
    }
}

/// A buffer with every byte xored with `seed`.
pub open spec fn xor_all(bytes: Seq<u8>, seed: u8) -> Seq<u8> {
    Seq::new(bytes.len(), |i: int| bytes[i] ^ seed)
}

/// Xoring twice with one seed gives the buffer back.
pub proof fn lemma_xor_twice(bytes: Seq<u8>, seed: u8)
    ensures
        xor_all(xor_all(bytes, seed), seed) == bytes,
{
    assert forall|i: int| 0 <= i < bytes.len() implies (bytes[i] ^ seed) ^ seed == bytes[i] by {
        let b = bytes[i];
        assert((b ^ seed) ^ seed == b) by (bit_vector);
    }
    assert(xor_all(xor_all(bytes, seed), seed) =~= bytes);
}

/// Xors every byte of `buffer` with `seed`.
pub fn xor_buffer(buffer: &mut [u8], seed: u8)
    ensures
        final(buffer)@ == xor_all(old(buffer)@, seed),
{
    let mut i: usize = 0;
    while i < buffer.len()
        invariant
            i <= buffer@.len(),
            buffer@.len() == old(buffer)@.len(),
            forall|j: int| 0 <= j < i ==> #[trigger] buffer@[j] == old(buffer)@[j] ^ seed,
            forall|j: int| i <= j < buffer@.len() ==> #[trigger] buffer@[j] == old(buffer)@[j],
        decreases buffer@.len() - i,
    {
        buffer[i] = buffer[i] ^ seed;
        i = i + 1;
    }
    assert(buffer@ =~= xor_all(old(buffer)@, seed));
}

/// Xors every byte of `buffer` with one byte drawn from `rng`.
pub fn xor_buffer_with_seed(buffer: &mut [u8], rng: &mut StdRng)
    ensures
        exists|seed: u8| final(buffer)@ == xor_all(old(buffer)@, seed),
{
    let seed = std_rng_gen_u8(rng);
    xor_buffer(buffer, seed);
}

/// Every byte of `out` is a byte of `source`, and both are equally long.
pub open spec fn drawn_from(out: Seq<u8>, source: Seq<u8>) -> bool {
    &&& out.len() == source.len()
    &&& forall|i: int| 0 <= i < out.len() ==> source.contains(#[trigger] out[i])
}

/// For each pick the byte of `buffer` at the pick's place, places being
/// counted round the buffer.
pub fn pick_bytes(buffer: &[u8], picks: &[u32]) -> (out: Vec<u8>)
    requires
        buffer@.len() > 0,
    ensures
        out@.len() == picks@.len(),
        forall|i: int|
            0 <= i < picks@.len() ==> #[trigger] out@[i] == buffer@[(picks@[i] as int)
                % (buffer@.len() as int)],
{
    let len = buffer.len();
    let mut out: Vec<u8> = Vec::new();
    let mut i: usize = 0;
    while i < picks.len()
        invariant
            i <= picks@.len(),
            len == buffer@.len(),
            len > 0,
            out@.len() == i,
            forall|j: int|
                0 <= j < i ==> #[trigger] out@[j] == buffer@[(picks@[j] as int) % (len as int)],
        decreases picks@.len() - i,
    {
        let place = picks[i] as usize % len;
        out.push(buffer[place]);
        i = i + 1;
    }
    out
}

/// `out` holds, at each place, the byte that `source` has at the place
/// picked for it, and every pick is a place of `source`.
pub open spec fn picked(out: Seq<u8>, source: Seq<u8>, picks: Seq<u32>) -> bool {
    &&& out.len() == source.len()
    &&& picks.len() == source.len()
    &&& forall|i: int| 0 <= i < picks.len() ==> (#[trigger] picks[i] as int) < source.len()
    &&& forall|i: int| 0 <= i < out.len() ==> #[trigger] out[i] == source[picks[i] as int]
}

/// Fills every place of `buffer` with a byte taken from a place of the old
/// buffer that is drawn at random. Places are drawn one by one, so a byte
/// may be taken more than once and another not at all: the result is in
/// general no reordering of the buffer. A place is drawn as a number of 32
/// bits, so in a buffer of more places than such numbers only the first are
/// drawn from.
pub fn shuffle_buffer_with_rng(buffer: &mut [u8], rng: &mut StdRng)
    ensures
        exists|picks: Seq<u32>| #[trigger] picked(final(buffer)@, old(buffer)@, picks),
        drawn_from(final(buffer)@, old(buffer)@),
{
    let len = buffer.len();
    if len == 0 {
        assert(picked(buffer@, old(buffer)@, Seq::<u32>::empty()));
        return ;
    }
    let high: u32 = if len - 1 > u32::MAX as usize {
        u32::MAX
    } else {
        (len - 1) as u32
    };
    let distribution = create_random_distribution(rng, 0, high, len);
    let shuffled_buffer = pick_bytes(buffer, distribution.as_slice());
    let mut i: usize = 0;
    while i < len
        invariant
            i <= len,
            len == buffer@.len(),
            len == old(buffer)@.len(),
            shuffled_buffer@.len() == len,
            forall|j: int| 0 <= j < i ==> #[trigger] buffer@[j] == shuffled_buffer@[j],
            forall|j: int| 0 <= j < len ==> old(buffer)@.contains(#[trigger] shuffled_buffer@[j]),
        decreases len - i,
    {
        buffer[i] = shuffled_buffer[i];
        i = i + 1;
    }
    proof {
        let picks = distribution@;
        assert forall|j: int| 0 <= j < len implies #[trigger] buffer@[j] == old(buffer)@[picks[j]
            as int] by {
            assert(buffer@[j] == shuffled_buffer@[j]);
            assert(picks[j] <= high);
            vstd::arithmetic::div_mod::lemma_small_mod(picks[j] as nat, len as nat);
        }
        assert(picked(buffer@, old(buffer)@, picks));
    }
}

/// Seals `buffer` under a key and a nonce that are drawn from `rng` and
/// thrown away, so nothing can open the result again. A buffer too long for
/// the cipher gives an empty result.
pub fn encrypt_buffer_aes(buffer: &[u8], rng: &mut StdRng) -> (out: Vec<u8>)
    ensures
        if buffer@.len() <= MAX_MESSAGE_SIZE {
            &&& out@.len() == buffer@.len() + TAG_SIZE
            &&& exists|key: Seq<u8>, nonce: Seq<u8>|
                key.len() == 16 && nonce.len() == 12 && out@ == #[trigger] aes_gcm_seal(
                    key,
                    nonce,
                    buffer@,
                )
        } else {
            out@.len() == 0
        },
{
    let key_bytes = random_bytes(rng, 16);
    let nonce_bytes = generate_nonce(rng);
    let cipher = match aes128_gcm_new(key_bytes.as_slice()) {
        Ok(cipher) => cipher,
        Err(_) => {
            return Vec::new();
        },
    };
    match aes128_gcm_encrypt(&cipher, nonce_bytes.as_slice(), buffer) {
        Ok(encrypted_data) => {
            assert(encrypted_data@ == aes_gcm_seal(key_bytes@, nonce_bytes@, buffer@));
            encrypted_data
        },
        Err(_) => Vec::new(),
    }
}

/// A byte with a sample of noise added, wrapping round at the ends.
pub open spec fn add_noise(byte: u8, sample: i8) -> u8 {
    ((byte as int + sample as int) % 256) as u8
}

/// Adds a sample of noise to one byte.
pub fn noisy_byte(byte: u8, sample: i8) -> (out: u8)
    ensures
        out == add_noise(byte, sample),
{
    let sum: i16 = byte as i16 + sample as i16;
    if sum < 0 {
        (sum + 256) as u8
    } else if sum > 255 {
        (sum - 256) as u8
    } else {
        sum as u8
    }
}

/// Adds noise to a buffer: sample `i` is added to byte `i`, wrapping round.
/// A byte for which there is no sample stays as it is.
pub fn apply_gaussian_noise_on_buffer(buffer: &mut [u8], noise: &[i8])
    ensures
        final(buffer)@.len() == old(buffer)@.len(),
        forall|i: int|
            0 <= i < old(buffer)@.len() ==> #[trigger] final(buffer)@[i] == (if i < noise@.len() {
                add_noise(old(buffer)@[i], noise@[i])
            } else {
                old(buffer)@[i]
            }),
{
    let mut i: usize = 0;
    while i < buffer.len() && i < noise.len()
        invariant
            buffer@.len() == old(buffer)@.len(),
            i <= buffer@.len(),
            i <= noise@.len(),
            forall|j: int|
                0 <= j < i ==> #[trigger] buffer@[j] == add_noise(old(buffer)@[j], noise@[j]),
            forall|j: int| i <= j < buffer@.len() ==> #[trigger] buffer@[j] == old(buffer)@[j],
        decreases buffer@.len() - i,
    {
        buffer[i] = noisy_byte(buffer[i], noise[i]);
        i = i + 1;
    }
}

} // verus!
