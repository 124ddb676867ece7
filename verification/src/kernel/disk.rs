//! Storage devices.

pub mod sd;
