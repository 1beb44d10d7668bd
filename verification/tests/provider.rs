use mirage::actors::encryption::AesError;
use mirage::actors::memory::secure_key_value_store::SecureStoreError;
use mirage::actors::memory::secure_memory_provider::{
    SecureMemoryProvider, SecureMemoryProviderError,
};
use mirage::actors::memory::Input;
use mirage::actors::Actor;
use mirage::tools::config::{AppConfig, EncryptionLevel};
use mirage::tools::memory_scramble::MemoryScramble;
use rand::rngs::StdRng;
use rand::SeedableRng;

fn provider_with(level: EncryptionLevel, parallel: bool) -> SecureMemoryProvider {
    let mut config = AppConfig::default();
    config.parameters.encryption_level = level;
    config.features.parallel_processing = parallel;
    let mut rng = StdRng::seed_from_u64(7);
    SecureMemoryProvider::new(&config, &mut rng)
}

fn provider() -> SecureMemoryProvider {
    provider_with(EncryptionLevel::Level1, false)
}

#[test]
fn nothing_is_held_at_first() {
    let provider = provider();
    assert_eq!(provider.get("sample_id").unwrap(), None);
    assert_eq!(provider.decrypt_fragment("sample_id".to_string()).unwrap(), None);
}

#[test]
fn get_gives_the_list_that_was_set() {
    for (level, parallel) in [
        (EncryptionLevel::Level1, false),
        (EncryptionLevel::Level1, true),
        (EncryptionLevel::Level2, false),
        (EncryptionLevel::Level2, true),
    ] {
        let mut provider = provider_with(level, parallel);
        let list = vec![Input::Buffer(vec![3u8; 3000]), Input::Bit(1)];
        provider.set("id".to_string(), list.clone()).unwrap();
        assert_eq!(provider.get("id").unwrap(), Some(list));
    }
}

#[test]
fn the_second_list_replaces_the_first() {
    let mut provider = provider();
    provider.set("id".to_string(), vec![Input::Bit(1), Input::Bit(2)]).unwrap();
    provider.set("id".to_string(), vec![Input::Buffer(vec![9])]).unwrap();
    assert_eq!(provider.get("id").unwrap(), Some(vec![Input::Buffer(vec![9])]));
}

#[test]
fn values_come_back_last_in_first_out() {
    let mut provider = provider();
    let a = Input::Buffer(b"hello".to_vec());
    let b = Input::Bit(42);
    provider.push("id".to_string(), a.clone()).unwrap();
    provider.push("id".to_string(), b.clone()).unwrap();
    assert_eq!(provider.get("id").unwrap(), Some(vec![a.clone(), b.clone()]));
    assert_eq!(provider.pop("id").unwrap(), Some(b));
    assert_eq!(provider.get("id").unwrap(), Some(vec![a.clone()]));
    assert_eq!(provider.pop("id").unwrap(), Some(a));
    assert_eq!(provider.get("id").unwrap(), None);
    assert_eq!(provider.pop("id").unwrap(), None);
}

#[test]
fn push_appends_to_a_list_that_was_set() {
    let mut provider = provider();
    provider.set("id".to_string(), vec![Input::Bit(1)]).unwrap();
    provider.push("id".to_string(), Input::Bit(2)).unwrap();
    assert_eq!(provider.get("id").unwrap(), Some(vec![Input::Bit(1), Input::Bit(2)]));
}

#[test]
fn pop_of_an_empty_list_clears_the_identifier() {
    let mut provider = provider();
    provider.set("id".to_string(), vec![]).unwrap();
    assert_eq!(provider.get("id").unwrap(), Some(vec![]));
    assert_eq!(provider.pop("id").unwrap(), None);
    assert_eq!(provider.get("id").unwrap(), None);
}

#[test]
fn a_second_layer_is_put_on_and_taken_off() {
    let mut provider = provider();
    let list = vec![Input::Buffer(b"secret".to_vec())];
    provider.set("id".to_string(), list.clone()).unwrap();
    provider.encrypt_fragment("id".to_string()).unwrap();
    assert!(matches!(provider.get("id"), Err(AesError::DeserializeError(_))));
    let inner = provider.decrypt_fragment("id".to_string()).unwrap().unwrap();
    assert_eq!(inner, Input::serialize(&list).unwrap());
    assert_eq!(Input::deserialize(&inner).unwrap(), list);
}

#[test]
fn a_second_layer_on_nothing_is_nothing() {
    let mut provider = provider();
    provider.encrypt_fragment("absent".to_string()).unwrap();
    assert_eq!(provider.get("absent").unwrap(), None);
}

#[test]
fn taking_off_a_layer_that_is_not_there_fails() {
    let mut provider = provider();
    provider.set("id".to_string(), vec![Input::Bit(1)]).unwrap();
    assert!(matches!(
        provider.decrypt_fragment("id".to_string()),
        Err(AesError::AesGcmError(_))
    ));
}

#[test]
fn push_and_pop_on_a_fragment_that_is_no_list_change_nothing() {
    let mut provider = provider();
    provider.set("id".to_string(), vec![Input::Bit(1)]).unwrap();
    provider.encrypt_fragment("id".to_string()).unwrap();
    assert!(matches!(
        provider.push("id".to_string(), Input::Bit(2)),
        Err(AesError::DeserializeError(_))
    ));
    assert!(matches!(provider.pop("id"), Err(AesError::DeserializeError(_))));
    let inner = provider.decrypt_fragment("id".to_string()).unwrap().unwrap();
    assert_eq!(Input::deserialize(&inner).unwrap(), vec![Input::Bit(1)]);
}

#[test]
fn a_scrambled_fragment_does_not_open() {
    let mut provider = provider();
    provider.set("id".to_string(), vec![Input::Buffer(vec![1u8; 200])]).unwrap();
    provider.set("other-id".to_string(), vec![Input::Bit(3)]).unwrap();
    let config = AppConfig::default();
    let mut scrambler = MemoryScramble::new(&config, StdRng::seed_from_u64(11));
    provider.scramble_fragment("id", &mut scrambler, &[]);
    assert!(matches!(
        provider.get("id"),
        Err(AesError::SecureStoreError(SecureStoreError::DecryptionError))
    ));
    assert!(matches!(
        provider.pop("id"),
        Err(AesError::SecureStoreError(SecureStoreError::DecryptionError))
    ));
    assert!(matches!(
        provider.push("id".to_string(), Input::Bit(1)),
        Err(AesError::SecureStoreError(SecureStoreError::DecryptionError))
    ));
    provider.scramble_fragment("absent", &mut scrambler, &[]);
    assert_eq!(provider.get("absent").unwrap(), None);
}

#[test]
fn the_quiet_hooks_change_nothing() {
    let mut provider = provider();
    let list = vec![Input::Buffer(vec![1, 2, 3]), Input::Bit(4)];
    provider.set("id".to_string(), list.clone()).unwrap();
    provider.move_fragment("id");
    provider.move_fragment("absent");
    provider.tamper_adjacent_blocks();
    provider.shuffle_fragments();
    assert_eq!(provider.get("id").unwrap(), Some(list));
}

#[test]
fn the_provider_is_an_actor_that_lives() {
    let provider = provider();
    assert!(provider.is_alive());
    provider.run(Some(Input::Bit(1)));
    provider.run(None);
    assert_eq!(provider.get("id").unwrap(), None);
}

#[test]
fn two_providers_have_keys_of_their_own() {
    let config = AppConfig::default();
    let mut rng = StdRng::seed_from_u64(1);
    let mut first = SecureMemoryProvider::new(&config, &mut rng);
    let second = SecureMemoryProvider::new(&config, &mut rng);
    first.set("id".to_string(), vec![Input::Bit(1)]).unwrap();
    first.encrypt_fragment("id".to_string()).unwrap();
    let inner = first.decrypt_fragment("id".to_string()).unwrap().unwrap();
    assert_eq!(Input::deserialize(&inner).unwrap(), vec![Input::Bit(1)]);
    assert_eq!(second.get("id").unwrap(), None);
}

#[test]
fn a_store_error_becomes_a_provider_error() {
    assert_eq!(
        SecureMemoryProviderError::from(SecureStoreError::EncryptionError),
        SecureMemoryProviderError::StoreError(SecureStoreError::EncryptionError)
    );
    assert_eq!(
        SecureMemoryProviderError::from(SecureStoreError::DecryptionError),
        SecureMemoryProviderError::StoreError(SecureStoreError::DecryptionError)
    );
}
