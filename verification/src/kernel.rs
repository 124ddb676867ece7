//! The current kernel: traps, scheduling, processes and memory bookkeeping.

pub mod disk;
pub mod syndrome;
pub mod traps;
pub mod error;
pub mod process;
pub mod scheduling;
pub mod memory;
