//! Per-execution binary coverage traces for a fuzzing harness running
//! under dynamic binary instrumentation.
//!
//! The instrumentation engine records basic blocks at translated
//! (execution-cache) addresses; this crate translates them back to the
//! target's module layout, buffers them for the current execution, and
//! serializes the buffer into a standard block-coverage trace file with
//! a collision-free name per execution. The serializer, the address
//! translator, and the naming scheme are verified; the thin filesystem
//! shell around them performs the actual directory creation and writes.
use vstd::prelude::*;

pub mod names;
pub mod numfmt;
pub mod registry;
pub mod runtime;
pub mod trace;

verus! {

/// A basic block observed during one execution, recorded in original
/// (module) address space after translation.
#[derive(Clone, Copy, PartialEq, Eq, Structural, Debug)]
pub struct BasicBlock {
    /// Start address of the block, in original address space.
    pub address: usize,
    /// Length of the block in bytes.
    pub size: usize,
}

impl BasicBlock {
    /// Builds a block from its start address and size.
    pub fn new(address: usize, size: usize) -> (r: BasicBlock)
        ensures
            r.address == address,
            r.size == size,
    {
        BasicBlock { address, size }
    }
}

} // verus!
