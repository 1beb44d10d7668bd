//! Helpers that the workers and the tools share.

pub mod key_generator;
pub mod statistics_probability;
pub mod memory;
pub mod sleep;
pub mod file_system;
