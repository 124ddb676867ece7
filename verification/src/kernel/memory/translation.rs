//! Translation-table geometry: how large tables and blocks are for each
//! translation granule and level.

use vstd::prelude::*;

use crate::kernel::memory::error::VirtualMemoryError;

verus! {

/// The translation granule: the size of the smallest page.
#[derive(Debug, PartialEq, Eq, Structural, Clone, Copy)]
pub enum GranuleSize {
    Kb4,
    Kb16,
    Kb64,
}

/// The value of the granule in the translation control register's TG
/// field.
pub fn granule_encoding(granule: GranuleSize) -> (r: u8)
    ensures
        granule == GranuleSize::Kb4 ==> r == 0b10,
        granule == GranuleSize::Kb16 ==> r == 0b01,
        granule == GranuleSize::Kb64 ==> r == 0b11,
{
    match granule {
        GranuleSize::Kb4 => 0b10,
        GranuleSize::Kb16 => 0b01,
        GranuleSize::Kb64 => 0b11,
    }
}

/// The number of address bits a translation table spans: a table fills
/// one granule.
pub fn table_size_bits(granule: GranuleSize) -> (r: usize)
    ensures
        granule == GranuleSize::Kb4 ==> r == 12,
        granule == GranuleSize::Kb16 ==> r == 14,
        granule == GranuleSize::Kb64 ==> r == 16,
{
    match granule {
        GranuleSize::Kb4 => 12,
        GranuleSize::Kb16 => 14,
        GranuleSize::Kb64 => 16,
    }
}

/// The address bits a block mapped at `level` spans, for the levels that
/// map blocks under each granule; `InvalidLevel` for any other level.
pub open spec fn block_bits(granule: GranuleSize, level: u8) -> Option<usize> {
    match (granule, level) {
        (GranuleSize::Kb4, 1) => Some(30usize),
        (GranuleSize::Kb4, 2) => Some(21usize),
        (GranuleSize::Kb4, 3) => Some(12usize),
        (GranuleSize::Kb16, 2) => Some(25usize),
        (GranuleSize::Kb16, 3) => Some(14usize),
        (GranuleSize::Kb64, 2) => Some(29usize),
        (GranuleSize::Kb64, 3) => Some(16usize),
        _ => None,
    }
}

/// The number of address bits a block at `level` spans under `granule`.
pub fn block_size_bits(granule: GranuleSize, level: u8) -> (r: Result<usize, VirtualMemoryError>)
    ensures
        block_bits(granule, level) matches Some(b) ==> r == Ok::<usize, VirtualMemoryError>(b),
        block_bits(granule, level) is None ==> r == Err::<usize, VirtualMemoryError>(
            VirtualMemoryError::InvalidLevel,
        ),
{
    match (granule, level) {
        (GranuleSize::Kb4, 1) => Ok(30),
        (GranuleSize::Kb4, 2) => Ok(21),
        (GranuleSize::Kb4, 3) => Ok(12),
        (GranuleSize::Kb16, 2) => Ok(25),
        (GranuleSize::Kb16, 3) => Ok(14),
        (GranuleSize::Kb64, 2) => Ok(29),
        (GranuleSize::Kb64, 3) => Ok(16),
        (_, _) => Err(VirtualMemoryError::InvalidLevel),
    }
}

} // verus!
