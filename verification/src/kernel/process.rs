//! Processes: identifiers, resource tables and program arguments.

pub mod execute;
pub mod pipe;
pub mod resource;
pub mod scheduler;
pub mod state;

use vstd::prelude::*;

verus! {

/// The identifier of a process (the value kept in its `tpidr` register).
#[derive(Copy, Clone, Debug, Ord, PartialOrd, Eq, PartialEq, Structural)]
pub struct ProcessId(pub u64);

impl From<ProcessId> for u64 {
    fn from(val: ProcessId) -> (r: u64) {
        val.0
    }
}

impl vstd::std_specs::convert::FromSpecImpl<ProcessId> for u64 {
    open spec fn obeys_from_spec() -> bool {
        true
    }

    open spec fn from_spec(v: ProcessId) -> u64 {
        v.0
    }
}

impl From<u64> for ProcessId {
    fn from(value: u64) -> (r: ProcessId) {
        ProcessId(value)
    }
}

impl vstd::std_specs::convert::FromSpecImpl<u64> for ProcessId {
    open spec fn obeys_from_spec() -> bool {
        true
    }

    open spec fn from_spec(v: u64) -> ProcessId {
        ProcessId(v)
    }
}

} // verus!
