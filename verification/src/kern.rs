//! The earlier kernel: its binned allocator, its exception decoding and
//! its interactive shell.

pub mod syndrome;
pub mod frame;
pub mod traps;
pub mod allocator;
pub mod shell;
