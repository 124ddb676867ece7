use vstd::prelude::*;

verus! {

/// Why a translation table or block could not be set up.
#[derive(Debug, PartialEq, Eq, Structural, Clone, Copy)]
pub enum VirtualMemoryError {
    InvalidLevel,
    UnsupportedSize,
    AllocationFailed,
}

} // verus!
