use mirage::tools::config::{AppConfig, Config, ConfigFile, EncryptionLevel};
use mirage::tools::Tools;
use mirage::utils::file_system::{
    first_step, next_step, overwrite_buffer_byte, overwrite_buffer_xor, DeleteStep, OverwritePass,
};

#[test]
fn the_default_configuration() {
    let config = AppConfig::default();
    assert!(!config.features.parallel_processing);
    assert!(!config.features.reconnaissance);
    assert!(!config.features.stealth);
    assert!(!config.features.enhanced_seed_generation);
    assert!(!config.features.enhanced_heap_modification);
    assert_eq!(config.parameters.encryption_level, EncryptionLevel::Level1);
    assert_eq!(config.parameters.observer_temperature_millis, 5000);
    assert_eq!(config.parameters.memory_scramble_size, 10);
}

#[test]
fn a_new_config_holds_the_defaults() {
    let config = Config::new();
    assert_eq!(config.get(), AppConfig::default());
    assert_eq!(config.get_features(), AppConfig::default().features);
    assert_eq!(config.get_parameters(), AppConfig::default().parameters);
    assert_eq!(config.name(), Tools::Config);
}

fn other() -> AppConfig {
    let mut other = AppConfig::default();
    other.features.stealth = true;
    other.features.parallel_processing = true;
    other.parameters.encryption_level = EncryptionLevel::Level2;
    other.parameters.memory_scramble_size = 3;
    other.parameters.observer_temperature_millis = 800;
    other
}

#[test]
fn a_parsed_document_comes_into_force() {
    let mut config = Config::new();
    assert!(!config.start(ConfigFile::Parsed(other())));
    assert_eq!(config.get(), other());
    assert!(config.get_features().stealth);
    assert_eq!(config.get_parameters().encryption_level, EncryptionLevel::Level2);
}

#[test]
fn a_missing_document_is_written_and_gives_the_defaults() {
    let mut config = Config::new();
    config.start(ConfigFile::Parsed(other()));
    assert!(config.start(ConfigFile::Missing));
    assert_eq!(config.get(), AppConfig::default());
}

#[test]
fn a_broken_document_is_written_anew_and_changes_nothing() {
    let mut config = Config::new();
    config.start(ConfigFile::Parsed(other()));
    assert!(config.start(ConfigFile::Unreadable));
    assert_eq!(config.get(), other());
    assert!(config.start(ConfigFile::Unparsable));
    assert_eq!(config.get(), other());
}

#[test]
fn names_in_writing() {
    assert_eq!(Tools::MemoryHeapModifier.label(), "memory-heap-modifier");
    assert_eq!(Tools::MemoryScramble.label(), "memory-scramble");
    assert_eq!(Tools::Config.label(), "config");
    assert_eq!(Tools::SecureMemory.label(), "secure-memory");
    assert_eq!(EncryptionLevel::Level1.label(), "Level 1");
    assert_eq!(EncryptionLevel::Level2.label(), "Level 2");
}

#[test]
fn a_file_is_overwritten_four_times_then_cut_then_removed() {
    let mut steps = vec![first_step()];
    while *steps.last().unwrap() != DeleteStep::Done {
        let next = next_step(*steps.last().unwrap(), true);
        steps.push(next);
        assert!(steps.len() < 20);
    }
    assert_eq!(
        steps,
        vec![
            DeleteStep::Overwrite(OverwritePass::Zeros),
            DeleteStep::Overwrite(OverwritePass::Ones),
            DeleteStep::Overwrite(OverwritePass::GaussianNoise),
            DeleteStep::Overwrite(OverwritePass::RandomXor),
            DeleteStep::Truncate,
            DeleteStep::Unlink,
            DeleteStep::Done,
        ]
    );
    assert_eq!(next_step(DeleteStep::Done, true), DeleteStep::Done);
    assert_eq!(next_step(DeleteStep::Done, false), DeleteStep::Done);
}

#[test]
fn a_failure_ends_the_work() {
    let all = [
        DeleteStep::Overwrite(OverwritePass::Zeros),
        DeleteStep::Overwrite(OverwritePass::Ones),
        DeleteStep::Overwrite(OverwritePass::GaussianNoise),
        DeleteStep::Overwrite(OverwritePass::RandomXor),
        DeleteStep::Truncate,
        DeleteStep::Unlink,
        DeleteStep::Aborted,
    ];
    for step in all {
        assert_eq!(next_step(step, false), DeleteStep::Aborted);
    }
    assert_eq!(next_step(DeleteStep::Aborted, true), DeleteStep::Aborted);
}

#[test]
fn the_bytes_of_the_plain_passes() {
    assert_eq!(overwrite_buffer_byte(5, 0x00), vec![0u8; 5]);
    assert_eq!(overwrite_buffer_byte(3, 0xFF), vec![0xFFu8; 3]);
    assert_eq!(overwrite_buffer_byte(0, 0xFF), Vec::<u8>::new());
}

#[test]
fn the_bytes_of_the_last_pass() {
    let first = overwrite_buffer_xor(64).unwrap();
    let second = overwrite_buffer_xor(64).unwrap();
    assert_eq!(first.len(), 64);
    assert_eq!(second.len(), 64);
    assert_ne!(first, second);
    assert_ne!(first, vec![0u8; 64]);
    assert_eq!(overwrite_buffer_xor(0).unwrap(), Vec::<u8>::new());
}
