use mirage::tools::config::AppConfig;
use mirage::tools::memory_heap_tamper::{
    halo_ranges, lies_in_region, tamper_byte, write_block, write_block_outside, MemoryHeapTamper,
    SAMPLE_MEAN,
};
use mirage::tools::memory_scramble::{MemoryScramble, MB};
use mirage::tools::Tools;
use mirage::utils::memory::{
    apply_gaussian_noise_on_buffer, create_layout_from_size, encrypt_buffer_aes, noisy_byte,
    pick_bytes, shuffle_buffer_with_rng, xor_buffer, xor_buffer_with_seed,
};
use rand::rngs::StdRng;
use rand::SeedableRng;

fn rng(seed: u64) -> StdRng {
    StdRng::seed_from_u64(seed)
}

fn pattern(length: usize) -> Vec<u8> {
    (0..length).map(|i| (i * 31 + 5) as u8).collect()
}

#[test]
fn a_layout_of_words() {
    let layout = create_layout_from_size(10).unwrap();
    assert_eq!(layout.size(), 40);
    assert_eq!(layout.align(), 4);
    let empty = create_layout_from_size(0).unwrap();
    assert_eq!(empty.size(), 0);
    assert_eq!(empty.align(), 4);
}

#[test]
fn a_layout_too_large_is_none() {
    assert!(create_layout_from_size(usize::MAX).is_none());
    assert!(create_layout_from_size(usize::MAX / 4).is_none());
    let most = (isize::MAX as usize - 3) / 4;
    assert_eq!(create_layout_from_size(most).unwrap().size(), most * 4);
    assert!(create_layout_from_size(most + 1).is_none());
}

#[test]
fn xor_with_a_seed() {
    let mut buffer = vec![0x00, 0xFF, 0x0F, 0x5A];
    xor_buffer(&mut buffer, 0xA5);
    assert_eq!(buffer, vec![0xA5, 0x5A, 0xAA, 0xFF]);
    xor_buffer(&mut buffer, 0xA5);
    assert_eq!(buffer, vec![0x00, 0xFF, 0x0F, 0x5A]);
    let mut empty: Vec<u8> = vec![];
    xor_buffer(&mut empty, 1);
    assert!(empty.is_empty());
}

#[test]
fn xor_with_a_random_seed_is_xor_with_one_byte() {
    let before = pattern(300);
    let mut buffer = before.clone();
    xor_buffer_with_seed(&mut buffer, &mut rng(4));
    let seed = buffer[0] ^ before[0];
    for i in 0..300 {
        assert_eq!(buffer[i], before[i] ^ seed);
    }
}

#[test]
fn picked_bytes_by_place() {
    let buffer = [10u8, 20, 30];
    assert_eq!(pick_bytes(&buffer, &[0, 1, 2, 3, 4, 5, 2, 2]), vec![10, 20, 30, 10, 20, 30, 30, 30]);
    assert_eq!(pick_bytes(&buffer, &[u32::MAX]), vec![buffer[(u32::MAX as usize) % 3]]);
    assert_eq!(pick_bytes(&buffer, &[]), Vec::<u8>::new());
}

#[test]
fn a_shuffled_buffer_holds_bytes_of_the_old_one() {
    let before: Vec<u8> = (0..200).collect();
    let mut buffer = before.clone();
    shuffle_buffer_with_rng(&mut buffer, &mut rng(6));
    assert_eq!(buffer.len(), 200);
    assert!(buffer.iter().all(|b| before.contains(b)));
    assert_ne!(buffer, before);
    let mut sorted = buffer.clone();
    sorted.sort();
    sorted.dedup();
    assert!(sorted.len() < 200);
    let mut empty: Vec<u8> = vec![];
    shuffle_buffer_with_rng(&mut empty, &mut rng(6));
    assert!(empty.is_empty());
    let mut single = vec![77u8];
    shuffle_buffer_with_rng(&mut single, &mut rng(6));
    assert_eq!(single, vec![77]);
}

#[test]
fn noise_wraps_round() {
    assert_eq!(noisy_byte(10, 5), 15);
    assert_eq!(noisy_byte(10, -5), 5);
    assert_eq!(noisy_byte(250, 10), 4);
    assert_eq!(noisy_byte(3, -10), 249);
    assert_eq!(noisy_byte(0, -128), 128);
    assert_eq!(noisy_byte(255, 127), 126);
    assert_eq!(noisy_byte(200, 0), 200);
    for byte in [0u8, 1, 127, 128, 255] {
        for sample in [-128i8, -1, 0, 1, 127] {
            assert_eq!(noisy_byte(byte, sample), byte.wrapping_add(sample as u8));
        }
    }
}

#[test]
fn noise_is_added_where_there_is_a_sample() {
    let mut buffer = vec![10u8, 250, 3, 40, 50];
    apply_gaussian_noise_on_buffer(&mut buffer, &[1, 10, -10]);
    assert_eq!(buffer, vec![11, 4, 249, 40, 50]);
    let mut short = vec![1u8, 2];
    apply_gaussian_noise_on_buffer(&mut short, &[1, 1, 1, 1]);
    assert_eq!(short, vec![2, 3]);
}

#[test]
fn a_sealed_buffer_is_a_tag_longer_and_differs_each_time() {
    let buffer = pattern(100);
    let first = encrypt_buffer_aes(&buffer, &mut rng(1));
    let second = encrypt_buffer_aes(&buffer, &mut rng(2));
    assert_eq!(first.len(), 116);
    assert_eq!(second.len(), 116);
    assert_ne!(first, second);
    assert_ne!(&first[..100], &buffer[..]);
    assert_eq!(encrypt_buffer_aes(&[], &mut rng(1)).len(), 16);
}

#[test]
fn the_scrambler_takes_its_size_from_the_configuration() {
    let mut config = AppConfig::default();
    let plain = MemoryScramble::new(&config, rng(1));
    assert_eq!(plain.memory_size(), 10 * MB);
    assert!(!plain.is_stealth());
    assert_eq!(plain.name(), Tools::MemoryScramble);
    config.features.stealth = true;
    let mut stealth = MemoryScramble::new(&config, rng(1));
    assert_eq!(stealth.memory_size(), 5 * MB);
    assert!(stealth.is_stealth());
    config.parameters.memory_scramble_size = 3;
    stealth.adjust_memory_size(&config);
    assert_eq!(stealth.memory_size(), 3 * MB / 2);
    config.features.stealth = false;
    stealth.adjust_memory_size(&config);
    assert_eq!(stealth.memory_size(), 3 * MB / 2);
    assert!(stealth.is_stealth());
}

#[test]
fn the_scratch_buffer_has_the_configured_size() {
    let mut config = AppConfig::default();
    config.parameters.memory_scramble_size = 1;
    let mut plain = MemoryScramble::new(&config, rng(1));
    let buffer = plain.start(&[]);
    assert_eq!(buffer.len(), MB);
    assert!(buffer.iter().all(|b| *b == buffer[0]));
    config.features.stealth = true;
    let mut stealth = MemoryScramble::new(&config, rng(1));
    let noisy = stealth.start(&[1, 2, 3]);
    assert_eq!(noisy.len(), MB / 2);
    let seed = noisy[3];
    assert_eq!(noisy[0], seed.wrapping_add(1));
    assert_eq!(noisy[1], seed.wrapping_add(2));
    assert_eq!(noisy[2], seed.wrapping_add(3));
}

#[test]
fn basic_measures_xor_and_draw() {
    let config = AppConfig::default();
    let mut scrambler = MemoryScramble::new(&config, rng(8));
    let before = pattern(64);
    let mut buffer = before.clone();
    scrambler.apply_basic_measures(&mut buffer);
    assert_eq!(buffer.len(), 64);
    let some_seed = (0..=255u8)
        .any(|seed| buffer.iter().all(|b| before.iter().any(|old| old ^ seed == *b)));
    assert!(some_seed);
    assert_ne!(buffer, before);
}

#[test]
fn stealth_measures_add_the_noise_and_seal() {
    let config = AppConfig::default();
    let mut scrambler = MemoryScramble::new(&config, rng(8));
    let mut buffer = vec![100u8; 8];
    let sealed = scrambler.apply_stealth_measures(&mut buffer, &[1, -1, 2, -2]);
    assert_eq!(buffer, vec![101, 99, 102, 98, 100, 100, 100, 100]);
    assert_eq!(sealed.len(), 8 + 16);
}

#[test]
fn only_the_regions_are_scrambled() {
    let config = AppConfig::default();
    let mut scrambler = MemoryScramble::new(&config, rng(12));
    let before = pattern(400);
    let mut memory = before.clone();
    scrambler.scramble_memory_fragments(&mut memory, &[(10, 50), (200, 100), (0, 0)], &[]);
    assert_eq!(memory.len(), 400);
    assert_eq!(&memory[..10], &before[..10]);
    assert_eq!(&memory[60..200], &before[60..200]);
    assert_eq!(&memory[300..], &before[300..]);
    assert_ne!(&memory[10..60], &before[10..60]);
    assert_ne!(&memory[200..300], &before[200..300]);
}

#[test]
fn regions_outside_the_buffer_are_passed_over() {
    let config = AppConfig::default();
    let mut scrambler = MemoryScramble::new(&config, rng(12));
    let before = pattern(100);
    let mut memory = before.clone();
    scrambler.scramble_memory_fragments(
        &mut memory,
        &[(90, 11), (100, 1), (500, 10), (usize::MAX, 2), (5, usize::MAX)],
        &[],
    );
    assert_eq!(memory, before);
    scrambler.scramble_region(&mut memory, 90, 10, &[]);
    assert_eq!(&memory[..90], &before[..90]);
}

#[test]
fn the_byte_of_each_pattern() {
    assert_eq!(tamper_byte(0, 5, 0x33, 0x44), 0x33);
    assert_eq!(tamper_byte(1, 5, 0x33, 0x44), 0xFF);
    assert_eq!(tamper_byte(2, 5, 0x33, 0x44), 5);
    assert_eq!(tamper_byte(2, 256 + 7, 0x33, 0x44), 7);
    assert_eq!(tamper_byte(3, 5, 0x33, 0x44), 0x44);
    assert_eq!(tamper_byte(9, 5, 0x33, 0x44), 0x44);
    assert_eq!(SAMPLE_MEAN, 150);
}

#[test]
fn a_tampered_block_has_the_size_asked_for() {
    let mut tamper = MemoryHeapTamper::new(rng(3));
    assert_eq!(tamper.name(), Tools::MemoryHeapModifier);
    assert_eq!(tamper.tamper_memory(0, &[]).len(), 0);
    let block = tamper.tamper_memory(2000, &[140, 160]);
    assert_eq!(block.len(), 2000);
    assert!(block.iter().filter(|b| **b == 0xFF).count() > 100);
    assert!(block.iter().enumerate().filter(|(i, b)| **b == (*i % 256) as u8).count() > 100);
    assert!(block.iter().filter(|b| **b == 140 || **b == 160).count() > 100);
    for _ in 0..50 {
        let rounds = tamper.round_count();
        assert!((3..=15).contains(&rounds));
    }
}

#[test]
fn only_the_block_is_overwritten() {
    let mut tamper = MemoryHeapTamper::new(rng(3));
    let before = vec![0u8; 300];
    let mut memory = before.clone();
    tamper.tamper_memory_pointer(&mut memory, 100, 50, &[1]);
    assert_eq!(&memory[..100], &before[..100]);
    assert_eq!(&memory[150..], &before[150..]);
    assert_ne!(&memory[100..150], &before[100..150]);
    let mut clipped = before.clone();
    tamper.tamper_memory_pointer(&mut clipped, 290, 50, &[1]);
    assert_eq!(clipped.len(), 300);
    assert_eq!(&clipped[..290], &before[..290]);
    tamper.tamper_memory_pointer(&mut clipped, 300, 50, &[1]);
    tamper.tamper_memory_pointer(&mut clipped, usize::MAX, usize::MAX, &[1]);
    assert_eq!(&clipped[..290], &before[..290]);
}

#[test]
fn protected_regions_stay_and_only_their_surroundings_change() {
    let mut tamper = MemoryHeapTamper::new(rng(21));
    let before = vec![0u8; 1000];
    let mut memory = before.clone();
    tamper.tamper_memory_fragments_adjacent(&mut memory, &[(100, 50), (500, 100)], 20, &[7, 8, 9]);
    assert_eq!(memory.len(), 1000);
    assert_eq!(&memory[100..150], &before[100..150]);
    assert_eq!(&memory[500..600], &before[500..600]);
    assert_eq!(&memory[..80], &before[..80]);
    assert_eq!(&memory[170..480], &before[170..480]);
    assert_eq!(&memory[620..], &before[620..]);
    assert_ne!(&memory[80..100], &before[80..100]);
    assert_ne!(&memory[150..170], &before[150..170]);
    assert_ne!(&memory[480..500], &before[480..500]);
    assert_ne!(&memory[600..620], &before[600..620]);
}

#[test]
fn surroundings_are_cut_at_the_ends_of_the_buffer() {
    let mut tamper = MemoryHeapTamper::new(rng(21));
    let before = vec![0u8; 100];
    let mut memory = before.clone();
    tamper.tamper_memory_fragments_adjacent(&mut memory, &[(5, 90)], 20, &[]);
    assert_eq!(memory.len(), 100);
    assert_eq!(&memory[5..95], &before[5..95]);
    let mut far = before.clone();
    tamper.tamper_memory_fragments_adjacent(&mut far, &[(usize::MAX - 1, 10), (400, 5)], 3, &[]);
    assert_eq!(far, before);
}

#[test]
fn a_radius_of_zero_changes_nothing() {
    let mut tamper = MemoryHeapTamper::new(rng(21));
    let before = pattern(100);
    let mut memory = before.clone();
    tamper.tamper_memory_fragments_adjacent(&mut memory, &[(10, 10), (50, 10)], 0, &[]);
    assert_eq!(memory, before);
}

#[test]
fn a_region_next_to_another_is_left_alone() {
    let mut tamper = MemoryHeapTamper::new(rng(21));
    let before = vec![0u8; 40];
    let mut memory = before.clone();
    tamper.tamper_memory_fragments_adjacent(&mut memory, &[(0, 10), (10, 10)], 5, &[]);
    assert_eq!(&memory[..20], &before[..20]);
    assert_ne!(&memory[20..25], &before[20..25]);
    assert_eq!(&memory[25..], &before[25..]);
}

#[test]
fn regions_that_overlap_are_both_left_alone() {
    let mut tamper = MemoryHeapTamper::new(rng(22));
    let before = vec![0u8; 100];
    let mut memory = before.clone();
    tamper.tamper_memory_fragments_adjacent(&mut memory, &[(20, 30), (40, 30), (75, 5)], 10, &[3]);
    assert_eq!(&memory[20..70], &before[20..70]);
    assert_eq!(&memory[75..80], &before[75..80]);
    assert_eq!(&memory[..10], &before[..10]);
    assert_eq!(&memory[90..], &before[90..]);
    assert_ne!(&memory[10..20], &before[10..20]);
    assert_ne!(&memory[70..75], &before[70..75]);
    assert_ne!(&memory[80..90], &before[80..90]);
}

#[test]
fn the_ranges_next_to_a_region() {
    assert_eq!(halo_ranges((100, 50), 20), ((80, 20), (150, 20)));
    assert_eq!(halo_ranges((5, 10), 20), ((0, 5), (15, 20)));
    assert_eq!(halo_ranges((0, 10), 3), ((0, 0), (10, 3)));
    assert_eq!(halo_ranges((7, 0), 2), ((5, 2), (7, 2)));
    assert_eq!(halo_ranges((7, 3), 0), ((7, 0), (10, 0)));
    assert_eq!(halo_ranges((usize::MAX - 4, 2), 10), ((usize::MAX - 14, 10), (usize::MAX - 2, 2)));
    assert_eq!(halo_ranges((usize::MAX, 5), 10), ((usize::MAX - 10, 10), (usize::MAX, 0)));
}

#[test]
fn whether_a_place_lies_in_a_region() {
    let regions = [(10usize, 5usize), (30, 0), (40, 1)];
    assert!(!lies_in_region(&regions, 9));
    assert!(lies_in_region(&regions, 10));
    assert!(lies_in_region(&regions, 14));
    assert!(!lies_in_region(&regions, 15));
    assert!(!lies_in_region(&regions, 30));
    assert!(lies_in_region(&regions, 40));
    assert!(!lies_in_region(&regions, 41));
    assert!(!lies_in_region(&[], 0));
    assert!(lies_in_region(&[(usize::MAX - 1, usize::MAX)], usize::MAX));
}

#[test]
fn a_block_is_written_round_the_regions() {
    let mut memory = vec![0u8; 10];
    write_block_outside(&mut memory, 1, &[1, 2, 3, 4, 5, 6], &[(3, 2), (6, 1)]);
    assert_eq!(memory, vec![0, 1, 2, 0, 0, 5, 0, 0, 0, 0]);
    write_block_outside(&mut memory, 8, &[9, 9, 9, 9], &[]);
    assert_eq!(memory, vec![0, 1, 2, 0, 0, 5, 0, 0, 9, 9]);
    write_block_outside(&mut memory, 0, &[7; 10], &[(0, 10)]);
    assert_eq!(memory, vec![0, 1, 2, 0, 0, 5, 0, 0, 9, 9]);
}

#[test]
fn a_block_is_written_where_it_lies_in_the_buffer() {
    let mut memory = vec![0u8; 8];
    write_block(&mut memory, 2, &[1, 2, 3]);
    assert_eq!(memory, vec![0, 0, 1, 2, 3, 0, 0, 0]);
    write_block(&mut memory, 6, &[9, 9, 9, 9]);
    assert_eq!(memory, vec![0, 0, 1, 2, 3, 0, 9, 9]);
    write_block(&mut memory, 8, &[7]);
    write_block(&mut memory, usize::MAX, &[7, 7]);
    write_block(&mut memory, 0, &[]);
    assert_eq!(memory, vec![0, 0, 1, 2, 3, 0, 9, 9]);
    write_block(&mut memory, 0, &[5; 20]);
    assert_eq!(memory, vec![5u8; 8]);
}

#[test]
fn a_region_is_made_of_its_own_bytes_xored_with_one_seed() {
    let config = AppConfig::default();
    let mut scrambler = MemoryScramble::new(&config, rng(31));
    let before = pattern(120);
    let mut memory = before.clone();
    scrambler.scramble_memory_fragments(&mut memory, &[(20, 30), (70, 10)], &[]);
    for (offset, size) in [(20usize, 30usize), (70, 10)] {
        let old_region = &before[offset..offset + size];
        let new_region = &memory[offset..offset + size];
        let one_seed = (0..=255u8)
            .any(|seed| new_region.iter().all(|b| old_region.iter().any(|old| old ^ seed == *b)));
        assert!(one_seed);
    }
    assert_eq!(&memory[..20], &before[..20]);
    assert_eq!(&memory[50..70], &before[50..70]);
    assert_eq!(&memory[80..], &before[80..]);
}
