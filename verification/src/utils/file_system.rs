//! The order of work when a file is destroyed, and the bytes that are
//! written over it. Reading and writing are the caller's.

use crate::random::os_rng_try_fill_bytes;
use crate::utils::statistics_probability::EntropyError;
use crate::utils::memory::xor_buffer;
use vstd::prelude::*;

verus! {

/// What one pass writes over the whole file.
#[derive(Clone, Copy, Debug, PartialEq, Eq, Structural)]
pub enum OverwritePass {
    /// Every byte zero.
    Zeros,
    /// Every byte `0xFF`.
    Ones,
    /// Bytes of noise.
    GaussianNoise,
    /// Random bytes xored with one random byte.
    RandomXor,
}

/// A step in the destruction of a file.
#[derive(Clone, Copy, Debug, PartialEq, Eq, Structural)]
pub enum DeleteStep {
    /// Write a pass over the file's whole length and sync it.
    Overwrite(OverwritePass),
    /// Cut the file to length zero.
    Truncate,
    /// Remove the file's name.
    Unlink,
    /// Nothing is left to do: the file is gone.
    Done,
    /// A step failed and the rest was given up. The file may be partly
    /// overwritten and is still there.
    Aborted,
}

/// The step that follows `current`, given whether it went well. The four
/// passes come in their order, then the cut, then the removal. After a
/// failure nothing more is done.
pub open spec fn spec_next_step(current: DeleteStep, succeeded: bool) -> DeleteStep {
    if !succeeded {
        match current {
            DeleteStep::Done => DeleteStep::Done,
            _ => DeleteStep::Aborted,
        }
    } else {
        match current {
            DeleteStep::Overwrite(OverwritePass::Zeros) => DeleteStep::Overwrite(
                OverwritePass::Ones,
            ),
            DeleteStep::Overwrite(OverwritePass::Ones) => DeleteStep::Overwrite(
                OverwritePass::GaussianNoise,
            ),
            DeleteStep::Overwrite(OverwritePass::GaussianNoise) => DeleteStep::Overwrite(
                OverwritePass::RandomXor,
            ),
            DeleteStep::Overwrite(OverwritePass::RandomXor) => DeleteStep::Truncate,
            DeleteStep::Truncate => DeleteStep::Unlink,
            DeleteStep::Unlink => DeleteStep::Done,
            DeleteStep::Done => DeleteStep::Done,
            DeleteStep::Aborted => DeleteStep::Aborted,
        }
    }
}

/// The steps of a destruction in which nothing fails.
pub open spec fn full_plan() -> Seq<DeleteStep> {
    seq![
        DeleteStep::Overwrite(OverwritePass::Zeros),
        DeleteStep::Overwrite(OverwritePass::Ones),
        DeleteStep::Overwrite(OverwritePass::GaussianNoise),
        DeleteStep::Overwrite(OverwritePass::RandomXor),
        DeleteStep::Truncate,
        DeleteStep::Unlink,
        DeleteStep::Done,
    ]
}

/// Where every step goes well, the steps are those of the full plan in
/// their order: all four passes are made before the file is cut, and the
/// file is cut before its name is removed.
pub proof fn lemma_plan_followed(i: int)
    requires
        0 <= i < 6,
    ensures
        spec_next_step(full_plan()[i], true) == full_plan()[i + 1],
        full_plan()[0] == DeleteStep::Overwrite(OverwritePass::Zeros),
{
}

/// A step that fails ends the work: nothing is cut or removed after it.
pub proof fn lemma_failure_aborts(current: DeleteStep, later: bool)
    requires
        current != DeleteStep::Done,
    ensures
        spec_next_step(current, false) == DeleteStep::Aborted,
        spec_next_step(spec_next_step(current, false), later) == DeleteStep::Aborted,
{
}

/// The first step: the pass of zeros.
pub fn first_step() -> (step: DeleteStep)
    ensures
        step == full_plan()[0],
{
    DeleteStep::Overwrite(OverwritePass::Zeros)
}

/// The step that follows `current`, given whether it went well.
pub fn next_step(current: DeleteStep, succeeded: bool) -> (step: DeleteStep)
    ensures
        step == spec_next_step(current, succeeded),
{
    if !succeeded {
        return match current {
            DeleteStep::Done => DeleteStep::Done,
            _ => DeleteStep::Aborted,
        };
    }
    match current {
        DeleteStep::Overwrite(OverwritePass::Zeros) => DeleteStep::Overwrite(OverwritePass::Ones),
        DeleteStep::Overwrite(OverwritePass::Ones) => DeleteStep::Overwrite(
            OverwritePass::GaussianNoise,
        ),
        DeleteStep::Overwrite(OverwritePass::GaussianNoise) => DeleteStep::Overwrite(
            OverwritePass::RandomXor,
        ),
        DeleteStep::Overwrite(OverwritePass::RandomXor) => DeleteStep::Truncate,
        DeleteStep::Truncate => DeleteStep::Unlink,
        DeleteStep::Unlink => DeleteStep::Done,
        DeleteStep::Done => DeleteStep::Done,
        DeleteStep::Aborted => DeleteStep::Aborted,
    }
}

/// `length` bytes that are all `byte`: what the passes of zeros and of ones
/// write.
pub fn overwrite_buffer_byte(length: usize, byte: u8) -> (buffer: Vec<u8>)
    ensures
        buffer@ == Seq::new(length as nat, |i: int| byte),
{
    let mut buffer: Vec<u8> = Vec::new();
    while buffer.len() < length
        invariant
            buffer@.len() <= length,
            forall|i: int| 0 <= i < buffer@.len() ==> buffer@[i] == byte,
        decreases length - buffer@.len(),
    {
        buffer.push(byte);
    }
    assert(buffer@ =~= Seq::new(length as nat, |i: int| byte));
    buffer
}

/// `length` bytes from the operating system, each xored with one more byte
/// from it: what the last pass writes. The call fails where the operating
/// system has no entropy to give.
pub fn overwrite_buffer_xor(length: usize) -> (r: Result<Vec<u8>, EntropyError>)
    ensures
        r matches Ok(buffer) ==> buffer@.len() == length,
{
    let mut buffer = overwrite_buffer_byte(length, 0);
    match os_rng_try_fill_bytes(buffer.as_mut_slice()) {
        Ok(()) => {},
        Err(_) => {
            return Err(EntropyError::Unavailable);
        },
    }
    let mut one: Vec<u8> = Vec::new();
    one.push(0);
    match os_rng_try_fill_bytes(one.as_mut_slice()) {
        Ok(()) => {},
        Err(_) => {
            return Err(EntropyError::Unavailable);
        },
    }
    let random_byte = one[0];
    xor_buffer(buffer.as_mut_slice(), random_byte);
    Ok(buffer)
}

} // verus!
