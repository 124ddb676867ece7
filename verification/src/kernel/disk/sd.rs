//! The SD card as a read-only block device: which requests it accepts and
//! how the controller's status codes become errors.

use vstd::prelude::*;

verus! {

/// The size of one SD card sector, in bytes.
pub const SECTOR_SIZE: usize = 512;

/// The greatest sector number the controller's driver can address.
pub const LAST_SECTOR: u64 = 0x4000_0000;

/// The ways an SD card request fails (the I/O error kinds it reports).
#[derive(Debug, Clone, Copy, PartialEq, Eq, Structural)]
pub enum SdError {
    /// The buffer or the sector number cannot be handed to the controller.
    InvalidInput,
    /// The controller did not answer in time.
    TimedOut,
    /// Any other controller failure.
    Other,
}

/// A handle to the SD card controller.
#[derive(Debug, Clone, Copy, PartialEq, Eq, Structural)]
pub struct Sd;

/// Whether a read of sector `block` into a buffer of `len` bytes at address
/// `address` can be handed to the controller: the buffer holds a whole
/// sector, is 4-byte aligned, and the sector is addressable.
pub open spec fn read_accepted(block: u64, len: usize, address: usize) -> bool {
    len >= SECTOR_SIZE && block <= LAST_SECTOR && address % 4 == 0
}

impl Sd {
    /// The handle for the controller's initialization status: 0 means the
    /// card is ready; any other status (-1 for a timeout, -2 for a command
    /// failure) is an error.
    pub fn from_init_status(status: i32) -> (r: Result<Sd, SdError>)
        ensures
            status == 0 ==> r == Ok::<Sd, SdError>(Sd),
            status != 0 ==> r == Err::<Sd, SdError>(SdError::Other),
    {
        if status == 0 {
            Ok(Sd)
        } else {
            Err(SdError::Other)
        }
    }

    /// The size of a block: one sector.
    pub fn block_size(&self) -> (r: usize)
        ensures
            r == SECTOR_SIZE,
    {
        SECTOR_SIZE
    }

    /// Checks a read of sector `block` into a buffer of `len` bytes at
    /// address `address`, before it goes to the controller.
    pub fn check_read(&self, block: u64, len: usize, address: usize) -> (r: Result<(), SdError>)
        ensures
            r is Ok <==> read_accepted(block, len, address),
            r is Err ==> r == Err::<(), SdError>(SdError::InvalidInput),
    {
        if len < SECTOR_SIZE || block > LAST_SECTOR {
            return Err(SdError::InvalidInput);
        }
        if address % 4 != 0 {
            return Err(SdError::InvalidInput);
        }
        Ok(())
    }

    /// The outcome of a sector read: the controller returns the number of
    /// bytes read, 0 on failure, and then `last_error` tells why (-1 for a
    /// timeout).
    pub fn read_outcome(&self, bytes_read: i32, last_error: i64) -> (r: Result<(), SdError>)
        ensures
            bytes_read != 0 ==> r == Ok::<(), SdError>(()),
            bytes_read == 0 && last_error == -1 ==> r == Err::<(), SdError>(SdError::TimedOut),
            bytes_read == 0 && last_error != -1 ==> r == Err::<(), SdError>(SdError::Other),
    {
        if bytes_read != 0 {
            Ok(())
        } else if last_error == -1 {
            Err(SdError::TimedOut)
        } else {
            Err(SdError::Other)
        }
    }
}

} // verus!
