use vstd::prelude::*;

verus! {

/// Errors the kernel reports to processes.
#[derive(Copy, Clone, Debug, PartialEq, Eq, Structural)]
pub enum OsError {
    Unknown,
    BadAddress,
    UnknownResourceId,
    SchedulerError,
    InvalidFilename,
}

} // verus!
