//! The bootloader's global allocator, which owns no memory at all.

use vstd::prelude::*;

verus! {

/// The bootloader's allocator: it never hands out memory (the bootloader
/// runs without a heap).
#[derive(Debug, Clone, Copy, PartialEq, Eq, Structural)]
pub struct PanicAllocator;

impl PanicAllocator {
    /// The allocator.
    pub fn new() -> (r: Self)
        ensures
            r == PanicAllocator,
    {
        PanicAllocator
    }
}

} // verus!
