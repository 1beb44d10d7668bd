use mirage::actors::encryption::concat_chunks;
use mirage::actors::encryption::decryptor::Decryptor;
use mirage::actors::encryption::encryptor::Encryptor;
use mirage::actors::encryption::{work_for, AesError, Input, Work, CHUNK_SIZE, KEY_LENGTH, SEALED_CHUNK_SIZE};
use mirage::tools::config::{AppConfig, EncryptionLevel};
use std::path::PathBuf;

fn config(parallel: bool) -> AppConfig {
    let mut config = AppConfig::default();
    config.features.parallel_processing = parallel;
    config
}

fn key(level: EncryptionLevel) -> Vec<u8> {
    match level {
        EncryptionLevel::Level1 => (0u8..16).collect(),
        EncryptionLevel::Level2 => (0u8..32).collect(),
    }
}

fn nonce() -> Vec<u8> {
    (100u8..112).collect()
}

fn pair(level: EncryptionLevel, parallel: bool) -> (Encryptor, Decryptor) {
    let config = config(parallel);
    (
        Encryptor::new(Some(level), key(level), nonce(), &config),
        Decryptor::new(Some(level), key(level), nonce(), &config),
    )
}

fn message(length: usize) -> Vec<u8> {
    (0..length).map(|i| (i * 7 + 3) as u8).collect()
}

fn hex(text: &str) -> Vec<u8> {
    (0..text.len() / 2).map(|i| u8::from_str_radix(&text[2 * i..2 * i + 2], 16).unwrap()).collect()
}

#[test]
fn scenario_level1_twenty_bytes_serial() {
    let (encryptor, decryptor) = pair(EncryptionLevel::Level1, false);
    let plaintext = vec![0x41u8; 20];
    let sealed = encryptor.encrypt(&plaintext).unwrap();
    assert_eq!(sealed.len(), 20 + 16);
    assert_eq!(decryptor.decrypt(&sealed).unwrap(), plaintext);
}

#[test]
fn round_trip_serial_both_levels() {
    for level in [EncryptionLevel::Level1, EncryptionLevel::Level2] {
        let (encryptor, decryptor) = pair(level, false);
        for length in [0usize, 1, 15, 16, 17, 1023, 1024, 1025, 2048, 5000] {
            let plaintext = message(length);
            let sealed = encryptor.encrypt(&plaintext).unwrap();
            assert_eq!(sealed.len(), length + 16);
            assert_eq!(decryptor.decrypt(&sealed).unwrap(), plaintext);
        }
    }
}

#[test]
fn round_trip_chunked_both_levels() {
    for level in [EncryptionLevel::Level1, EncryptionLevel::Level2] {
        let (encryptor, decryptor) = pair(level, true);
        for length in [0usize, 1, 1023, 1024, 1025, 2047, 2048, 2049, 5000] {
            let plaintext = message(length);
            let sealed = encryptor.encrypt(&plaintext).unwrap();
            let chunks = (length + CHUNK_SIZE - 1) / CHUNK_SIZE;
            assert_eq!(sealed.len(), length + 16 * chunks);
            assert_eq!(decryptor.decrypt(&sealed).unwrap(), plaintext);
        }
    }
}

#[test]
fn chunked_ciphertext_is_the_sealed_chunks_in_order() {
    let (chunked, _) = pair(EncryptionLevel::Level1, true);
    let (serial, _) = pair(EncryptionLevel::Level1, false);
    let plaintext = message(2500);
    let sealed = chunked.encrypt(&plaintext).unwrap();
    let mut expected = Vec::new();
    expected.extend(serial.encrypt(&plaintext[0..1024]).unwrap());
    expected.extend(serial.encrypt(&plaintext[1024..2048]).unwrap());
    expected.extend(serial.encrypt(&plaintext[2048..2500]).unwrap());
    assert_eq!(sealed, expected);
    assert_eq!(sealed.len(), 2 * SEALED_CHUNK_SIZE + 452 + 16);
}

#[test]
fn chunked_empty_message_is_empty() {
    let (chunked, opener) = pair(EncryptionLevel::Level1, true);
    assert_eq!(chunked.encrypt(&[]).unwrap(), Vec::<u8>::new());
    assert_eq!(opener.decrypt(&[]).unwrap(), Vec::<u8>::new());
}

#[test]
fn one_chunk_opens_in_either_mode() {
    let (serial_sealer, serial_opener) = pair(EncryptionLevel::Level2, false);
    let (chunked_sealer, chunked_opener) = pair(EncryptionLevel::Level2, true);
    for length in [1usize, 20, 1024] {
        let plaintext = message(length);
        let from_serial = serial_sealer.encrypt(&plaintext).unwrap();
        let from_chunked = chunked_sealer.encrypt(&plaintext).unwrap();
        assert_eq!(from_serial, from_chunked);
        assert_eq!(chunked_opener.decrypt(&from_serial).unwrap(), plaintext);
        assert_eq!(serial_opener.decrypt(&from_chunked).unwrap(), plaintext);
    }
}

#[test]
fn several_chunks_do_not_open_in_the_other_mode() {
    let (serial_sealer, serial_opener) = pair(EncryptionLevel::Level1, false);
    let (chunked_sealer, chunked_opener) = pair(EncryptionLevel::Level1, true);
    let plaintext = message(2000);
    let from_serial = serial_sealer.encrypt(&plaintext).unwrap();
    let from_chunked = chunked_sealer.encrypt(&plaintext).unwrap();
    assert!(matches!(chunked_opener.decrypt(&from_serial), Err(AesError::AesGcmError(_))));
    assert!(matches!(serial_opener.decrypt(&from_chunked), Err(AesError::AesGcmError(_))));
}

#[test]
fn empty_message_differs_between_modes() {
    let (serial_sealer, serial_opener) = pair(EncryptionLevel::Level1, false);
    let (_, chunked_opener) = pair(EncryptionLevel::Level1, true);
    let sealed = serial_sealer.encrypt(&[]).unwrap();
    assert_eq!(sealed.len(), 16);
    assert_eq!(chunked_opener.decrypt(&sealed).unwrap(), Vec::<u8>::new());
    assert!(matches!(serial_opener.decrypt(&[]), Err(AesError::AesGcmError(_))));
}

#[test]
fn known_answer_aes128_gcm_empty_message() {
    let config = config(false);
    let encryptor = Encryptor::new(Some(EncryptionLevel::Level1), vec![0u8; 16], vec![0u8; 12], &config);
    assert_eq!(encryptor.encrypt(&[]).unwrap(), hex("58e2fccefa7e3061367f1d57a4e7455a"));
}

#[test]
fn known_answer_aes128_gcm_one_block() {
    let config = config(false);
    let encryptor = Encryptor::new(Some(EncryptionLevel::Level1), vec![0u8; 16], vec![0u8; 12], &config);
    let decryptor = Decryptor::new(Some(EncryptionLevel::Level1), vec![0u8; 16], vec![0u8; 12], &config);
    let expected = hex("0388dace60b6a392f328c2b971b2fe78ab6e47d42cec13bdf53a67b21257bddf");
    assert_eq!(encryptor.encrypt(&[0u8; 16]).unwrap(), expected);
    assert_eq!(decryptor.decrypt(&expected).unwrap(), vec![0u8; 16]);
}

#[test]
fn known_answer_aes256_gcm_one_block() {
    let config = config(false);
    let encryptor = Encryptor::new(Some(EncryptionLevel::Level2), vec![0u8; 32], vec![0u8; 12], &config);
    let expected = hex("cea7403d4d606b6e074ec5d3baf39d18d0d1c8a799996bf0265b98b5d48ab919");
    assert_eq!(encryptor.encrypt(&[0u8; 16]).unwrap(), expected);
}

#[test]
fn wrong_nonce_length_is_invalid_key_length() {
    let config = config(false);
    for length in [0usize, 11, 13, 16] {
        let encryptor = Encryptor::new(Some(EncryptionLevel::Level1), vec![1u8; 16], vec![2u8; length], &config);
        let decryptor = Decryptor::new(Some(EncryptionLevel::Level1), vec![1u8; 16], vec![2u8; length], &config);
        assert!(matches!(encryptor.encrypt(b"abc"), Err(AesError::InvalidKeyLength)));
        assert!(matches!(decryptor.decrypt(&[0u8; 32]), Err(AesError::InvalidKeyLength)));
    }
    assert_eq!(KEY_LENGTH, 12);
}

#[test]
fn wrong_key_length_is_invalid_key_length() {
    for parallel in [false, true] {
        let config = config(parallel);
        let short = Encryptor::new(Some(EncryptionLevel::Level2), vec![1u8; 16], nonce(), &config);
        let long = Decryptor::new(Some(EncryptionLevel::Level1), vec![1u8; 32], nonce(), &config);
        assert!(matches!(short.encrypt(b"abc"), Err(AesError::InvalidKeyLength)));
        assert!(matches!(long.decrypt(&[0u8; 32]), Err(AesError::InvalidKeyLength)));
    }
}

#[test]
fn tampered_ciphertext_is_rejected() {
    for parallel in [false, true] {
        let (encryptor, decryptor) = pair(EncryptionLevel::Level1, parallel);
        let mut sealed = encryptor.encrypt(&message(1500)).unwrap();
        let last = sealed.len() - 1;
        sealed[last] ^= 1;
        assert!(matches!(decryptor.decrypt(&sealed), Err(AesError::AesGcmError(_))));
    }
}

#[test]
fn ciphertext_shorter_than_a_tag_is_rejected() {
    let (_, decryptor) = pair(EncryptionLevel::Level1, false);
    assert!(matches!(decryptor.decrypt(&[0u8; 15]), Err(AesError::AesGcmError(_))));
    let (_, chunked) = pair(EncryptionLevel::Level1, true);
    assert!(matches!(chunked.decrypt(&[0u8; 15]), Err(AesError::AesGcmError(_))));
}

#[test]
fn another_key_does_not_open() {
    let config = config(false);
    let encryptor = Encryptor::new(Some(EncryptionLevel::Level1), vec![1u8; 16], nonce(), &config);
    let decryptor = Decryptor::new(Some(EncryptionLevel::Level1), vec![2u8; 16], nonce(), &config);
    let sealed = encryptor.encrypt(b"secret").unwrap();
    assert!(matches!(decryptor.decrypt(&sealed), Err(AesError::AesGcmError(_))));
}

#[test]
fn level_and_mode_come_from_the_configuration() {
    let mut config = config(true);
    config.parameters.encryption_level = EncryptionLevel::Level2;
    let encryptor = Encryptor::new(None, key(EncryptionLevel::Level2), nonce(), &config);
    let decryptor = Decryptor::new(None, key(EncryptionLevel::Level2), nonce(), &config);
    let plaintext = message(1500);
    let sealed = encryptor.encrypt(&plaintext).unwrap();
    assert_eq!(sealed.len(), 1500 + 32);
    assert_eq!(decryptor.decrypt(&sealed).unwrap(), plaintext);
    assert!(encryptor.is_alive());
    assert!(decryptor.is_alive());
}

#[test]
fn buffers_are_transformed_in_place() {
    let (encryptor, decryptor) = pair(EncryptionLevel::Level1, false);
    let mut buffer = b"hello".to_vec();
    encryptor.process_buffer_or_bit(&mut buffer).unwrap();
    assert_eq!(buffer.len(), 5 + 16);
    assert_ne!(&buffer[..5], b"hello");
    decryptor.process_buffer_or_bit(&mut buffer).unwrap();
    assert_eq!(buffer, b"hello".to_vec());
}

#[test]
fn a_failed_transform_leaves_the_buffer() {
    let (_, decryptor) = pair(EncryptionLevel::Level1, false);
    let mut buffer = vec![9u8; 40];
    assert!(decryptor.process_buffer_or_bit(&mut buffer).is_err());
    assert_eq!(buffer, vec![9u8; 40]);
    let config = config(false);
    let broken = Encryptor::new(Some(EncryptionLevel::Level1), vec![1u8; 3], nonce(), &config);
    let mut other = vec![7u8; 4];
    assert!(broken.process_buffer_or_bit(&mut other).is_err());
    assert_eq!(other, vec![7u8; 4]);
}

#[test]
fn work_for_each_kind_of_input() {
    assert!(work_for(None).is_none());
    match work_for(Some(Input::File(PathBuf::from("/tmp/some.file")))) {
        Some(Work::File(path)) => assert_eq!(path, PathBuf::from("/tmp/some.file")),
        _ => panic!("a file must stay a file"),
    }
    match work_for(Some(Input::Buffer(vec![1, 2, 3]))) {
        Some(Work::Buffer(data)) => assert_eq!(data, vec![1, 2, 3]),
        _ => panic!("a buffer must stay a buffer"),
    }
    match work_for(Some(Input::Bit(9))) {
        Some(Work::Buffer(data)) => assert_eq!(data, vec![9]),
        _ => panic!("a byte must become a buffer"),
    }
}

#[test]
fn errors_in_words() {
    assert_eq!(AesError::InvalidKeyLength.message(), "Invalid key length, must be 12 bytes");
    assert_eq!(
        AesError::SerializeError("bad".to_string()).message(),
        "Serialization error: bad"
    );
    assert_eq!(
        AesError::DeserializeError("worse".to_string()).message(),
        "Deserialization error: worse"
    );
    let (_, decryptor) = pair(EncryptionLevel::Level1, false);
    let error = decryptor.decrypt(&[0u8; 20]).unwrap_err();
    assert_eq!(error.message(), "AES GCM encryption/decryption error: aead::Error");
    let io = AesError::from(std::io::Error::new(std::io::ErrorKind::NotFound, "gone"));
    assert_eq!(io.message(), "IO error: gone");
    let store = AesError::from(
        mirage::actors::memory::secure_key_value_store::SecureStoreError::DecryptionError,
    );
    assert_eq!(store.message(), "Secure store error: DecryptionError");
}

#[test]
fn parts_are_joined_in_their_order() {
    assert_eq!(concat_chunks(&vec![vec![1, 2], vec![], vec![3], vec![4, 5, 6]]), vec![1, 2, 3, 4, 5, 6]);
    assert_eq!(concat_chunks(&vec![]), Vec::<u8>::new());
    assert_eq!(concat_chunks(&vec![vec![], vec![]]), Vec::<u8>::new());
}

#[test]
fn short_input_is_rejected_whatever_its_bytes() {
    for parallel in [false, true] {
        let (_, decryptor) = pair(EncryptionLevel::Level2, parallel);
        for length in 1..16usize {
            assert!(matches!(
                decryptor.decrypt(&vec![0xABu8; length]),
                Err(AesError::AesGcmError(_))
            ));
        }
    }
}

#[test]
fn a_message_is_a_tag_shorter_for_each_sealed_chunk() {
    let (encryptor, decryptor) = pair(EncryptionLevel::Level1, true);
    for length in [1usize, 1024, 1025, 3000] {
        let sealed = encryptor.encrypt(&message(length)).unwrap();
        let chunks = (sealed.len() + SEALED_CHUNK_SIZE - 1) / SEALED_CHUNK_SIZE;
        assert_eq!(decryptor.decrypt(&sealed).unwrap().len() + 16 * chunks, sealed.len());
    }
}
