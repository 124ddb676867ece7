//! Memory bookkeeping: page-table entries and tables, frame pin counts,
//! the kernel allocator and its errors.

pub mod allocator;
pub mod entry;
pub mod error;
pub mod frames;
pub mod manager;
pub mod pagetable;
pub mod translation;
pub mod user;
