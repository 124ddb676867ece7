//! The disk-image tool's rules: the size of a new image, which partition
//! may be formatted, and where sectors lie in an image file.

use vstd::prelude::*;

verus! {

/// Bytes per megabyte, as image sizes are given.
pub const BYTES_PER_MEGABYTE: u64 = 1_000_000;

/// The number of entries of a master boot record's partition table.
pub const PARTITION_COUNT: u8 = 4;

/// Why the image tool refused a request.
#[derive(Copy, Clone, Debug, PartialEq, Eq, Structural)]
pub enum ImageError {
    /// The image would have no bytes.
    EmptyImage,
    /// The image size is not a whole number of sectors.
    PartialSector,
    /// The partition index is not one of the partition table's.
    InvalidPartition,
}

/// The size in bytes of an image of `image_size_mb` megabytes with sectors
/// of `sector_size` bytes: the image must have a positive size, made of
/// whole sectors.
pub fn image_file_size(sector_size: u16, image_size_mb: u64) -> (r: Result<u64, ImageError>)
    requires
        image_size_mb > 0 ==> sector_size > 0 && image_size_mb * BYTES_PER_MEGABYTE <= u64::MAX,
    ensures
        image_size_mb == 0 ==> r == Err::<u64, ImageError>(ImageError::EmptyImage),
        image_size_mb > 0 && (image_size_mb * BYTES_PER_MEGABYTE) % (sector_size as int) != 0 ==> r
            == Err::<u64, ImageError>(ImageError::PartialSector),
        image_size_mb > 0 && (image_size_mb * BYTES_PER_MEGABYTE) % (sector_size as int) == 0 ==> r
            == Ok::<u64, ImageError>((image_size_mb * BYTES_PER_MEGABYTE) as u64),
{
    if image_size_mb == 0 {
        return Err(ImageError::EmptyImage);
    }
    let file_size = image_size_mb * BYTES_PER_MEGABYTE;
    if file_size % (sector_size as u64) != 0 {
        return Err(ImageError::PartialSector);
    }
    Ok(file_size)
}

/// The index of partition `partition` in the partition table.
pub fn partition_index(partition: u8) -> (r: Result<usize, ImageError>)
    ensures
        partition < PARTITION_COUNT ==> r == Ok::<usize, ImageError>(partition as usize),
        partition >= PARTITION_COUNT ==> r == Err::<usize, ImageError>(ImageError::InvalidPartition),
{
    if partition >= PARTITION_COUNT {
        Err(ImageError::InvalidPartition)
    } else {
        Ok(partition as usize)
    }
}

/// Where sector `sector` starts in an image with sectors of `sector_size`
/// bytes.
pub fn sector_offset(sector_size: u16, sector: u64) -> (r: u64)
    requires
        sector_size * sector <= u64::MAX,
    ensures
        r == sector_size * sector,
{
    (sector_size as u64) * sector
}

/// How much of a buffer of `len` bytes one sector transfer uses: at most
/// one sector.
pub fn sector_span(sector_size: u16, len: usize) -> (r: usize)
    ensures
        len > sector_size ==> r == sector_size,
        len <= sector_size ==> r == len,
{
    if len > sector_size as usize {
        sector_size as usize
    } else {
        len
    }
}

} // verus!
