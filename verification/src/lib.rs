//! Verified core logic of a small AArch64 kernel for the Raspberry Pi:
//! exception syndrome decoding, the scheduler and its policies, the binned
//! buddy allocator, page tables with copy-on-write sharing, per-process
//! resource tables and pipes, the shell's command handling, the SD card's
//! request checks and the disk-image tool's rules.

pub mod bootloader;
pub mod image;
pub mod kern;
pub mod kernel;
