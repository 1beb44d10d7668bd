//! Tools that act on the process: configuration and memory countermeasures.

pub mod config;
pub mod memory_heap_tamper;
pub mod memory_scramble;

use vstd::prelude::*;

verus! {

/// The tools by name.
#[derive(Clone, Copy, Debug, PartialEq, Eq, Structural)]
pub enum Tools {
    MemoryHeapModifier,
    MemoryScramble,
    Config,
    SecureMemory,
}

impl Tools {
    /// The tool's name as it is written in messages.
    pub fn label(&self) -> (s: String)
        ensures
            s@ == (match *self {
                Tools::MemoryHeapModifier => "memory-heap-modifier"@,
                Tools::MemoryScramble => "memory-scramble"@,
                Tools::Config => "config"@,
                Tools::SecureMemory => "secure-memory"@,
            }),
    {
        match self {
            Tools::MemoryHeapModifier => "memory-heap-modifier".to_string(),
            Tools::MemoryScramble => "memory-scramble".to_string(),
            Tools::Config => "config".to_string(),
            Tools::SecureMemory => "secure-memory".to_string(),
        }
    }
}

/// Something that has a name and can be started.
pub trait Tool {
    fn name(&self) -> &Tools;

    fn start(&mut self);
}

} // verus!
