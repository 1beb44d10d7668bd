//! Workers that take a unit of work and transform it.

pub mod encryption;
pub mod memory;

use vstd::prelude::*;

verus! {

/// A worker that can be asked whether it lives and be handed work. `run`
/// gives nothing back: a caller that needs the outcome calls the worker's
/// own methods.
pub trait Actor<T: Send + Sync>: Send {
    fn is_alive(&self) -> bool;

    fn run(&self, input: Option<T>);
}

} // verus!
