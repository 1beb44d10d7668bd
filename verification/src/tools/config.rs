//! Feature flags and parameters that the rest of the library is built from.

use super::Tools;
use vstd::prelude::*;

verus! {

/// Selects the cipher and with it the size of the key.
#[derive(Clone, Copy, Debug, PartialEq, Eq, Structural)]
pub enum EncryptionLevel {
    /// AES-GCM with a 128-bit key.
    Level1,
    /// AES-GCM with a 256-bit key.
    Level2,
}

impl EncryptionLevel {
    /// Number of key bytes that the cipher of this level takes.
    pub open spec fn spec_key_size(self) -> nat {
        match self {
            EncryptionLevel::Level1 => 16,
            EncryptionLevel::Level2 => 32,
        }
    }

    /// Number of key bytes that the cipher of this level takes.
    pub fn key_size(self) -> (n: usize)
        ensures
            n == self.spec_key_size(),
    {
        match self {
            EncryptionLevel::Level1 => 16,
            EncryptionLevel::Level2 => 32,
        }
    }

    /// The level's name as it is shown to people.
    pub fn label(&self) -> (s: String)
        ensures
            s@ == (match *self {
                EncryptionLevel::Level1 => "Level 1"@,
                EncryptionLevel::Level2 => "Level 2"@,
            }),
    {
        match self {
            EncryptionLevel::Level1 => "Level 1".to_string(),
            EncryptionLevel::Level2 => "Level 2".to_string(),
        }
    }
}

/// Switches that turn optional behaviour on.
#[derive(Clone, Copy, Debug, PartialEq, Eq, Structural)]
pub struct Features {
    pub parallel_processing: bool,
    pub reconnaissance: bool,
    pub stealth: bool,
    pub enhanced_seed_generation: bool,
    pub enhanced_heap_modification: bool,
}

/// Tunable values. The observer temperature is kept in thousandths, so that
/// `5000` stands for `5.0`.
#[derive(Clone, Copy, Debug, PartialEq, Eq, Structural)]
pub struct Parameters {
    pub encryption_level: EncryptionLevel,
    pub observer_temperature_millis: u32,
    pub memory_scramble_size: usize,
}

/// The whole configuration document.
#[derive(Clone, Copy, Debug, PartialEq, Eq, Structural)]
pub struct AppConfig {
    pub features: Features,
    pub parameters: Parameters,
}

/// The configuration that is used when none could be loaded.
pub open spec fn default_app_config() -> AppConfig {
    AppConfig {
        features: Features {
            parallel_processing: false,
            reconnaissance: false,
            stealth: false,
            enhanced_seed_generation: false,
            enhanced_heap_modification: false,
        },
        parameters: Parameters {
            encryption_level: EncryptionLevel::Level1,
            observer_temperature_millis: 5000,
            memory_scramble_size: 10,
        },
    }
}

impl Default for AppConfig {
    fn default() -> (c: AppConfig)
        ensures
            c == default_app_config(),
    {
        AppConfig {
            features: Features {
                parallel_processing: false,
                reconnaissance: false,
                stealth: false,
                enhanced_seed_generation: false,
                enhanced_heap_modification: false,
            },
            parameters: Parameters {
                encryption_level: EncryptionLevel::Level1,
                observer_temperature_millis: 5000,
                memory_scramble_size: 10,
            },
        }
    }
}

/// What was found where the configuration document is kept.
pub enum ConfigFile {
    /// There is no document.
    Missing,
    /// There is one, and it could not be read.
    Unreadable,
    /// It was read, and is no configuration.
    Unparsable,
    /// It holds this configuration.
    Parsed(AppConfig),
}

/// The configuration in force. It starts as the default and is replaced by
/// what a document holds.
pub struct Config {
    settings: AppConfig,
}

impl View for Config {
    type V = AppConfig;

    closed spec fn view(&self) -> AppConfig {
        self.settings
    }
}

impl Config {
    /// The default configuration.
    pub fn new() -> (config: Config)
        ensures
            config@ == default_app_config(),
    {
        Config { settings: AppConfig::default() }
    }

    /// The tool's name.
    pub fn name(&self) -> (tool: Tools)
        ensures
            tool == Tools::Config,
    {
        Tools::Config
    }

    /// Takes in what was found where the document is kept, and says whether
    /// the default document must be written there. A parsed configuration
    /// comes into force. A missing document is written anew and the defaults
    /// come into force. A document that cannot be read or parsed is written
    /// anew and the configuration in force stays.
    pub fn start(&mut self, found: ConfigFile) -> (recreate: bool)
        ensures
            match found {
                ConfigFile::Parsed(loaded) => final(self)@ == loaded && !recreate,
                ConfigFile::Missing => final(self)@ == default_app_config() && recreate,
                ConfigFile::Unreadable => final(self)@ == old(self)@ && recreate,
                ConfigFile::Unparsable => final(self)@ == old(self)@ && recreate,
            },
    {
        match found {
            ConfigFile::Parsed(loaded) => {
                self.settings = loaded;
                false
            },
            ConfigFile::Missing => {
                self.settings = AppConfig::default();
                true
            },
            ConfigFile::Unreadable => true,
            ConfigFile::Unparsable => true,
        }
    }

    /// The whole configuration in force.
    pub fn get(&self) -> (settings: AppConfig)
        ensures
            settings == self@,
    {
        self.settings
    }

    /// The feature switches in force.
    pub fn get_features(&self) -> (features: Features)
        ensures
            features == self@.features,
    {
        self.settings.features
    }

    /// The parameters in force.
    pub fn get_parameters(&self) -> (parameters: Parameters)
        ensures
            parameters == self@.parameters,
    {
        self.settings.parameters
    }
}

} // verus!
