use rustos::bootloader::PanicAllocator;
use rustos::image::{image_file_size, partition_index, sector_offset, sector_span, ImageError};
use rustos::kernel::disk::sd::{Sd, SdError};

#[test]
fn sd_accepts_whole_aligned_sectors_in_range() {
    let sd = Sd::from_init_status(0).ok().unwrap();
    assert_eq!(sd.block_size(), 512);
    assert_eq!(sd.check_read(0, 512, 0x1000), Ok(()));
    assert_eq!(sd.check_read(1 << 30, 1024, 0x1004), Ok(()));
    assert_eq!(sd.check_read((1 << 30) + 1, 512, 0x1000), Err(SdError::InvalidInput));
    assert_eq!(sd.check_read(0, 511, 0x1000), Err(SdError::InvalidInput));
    assert_eq!(sd.check_read(0, 512, 0x1002), Err(SdError::InvalidInput));
}

#[test]
fn sd_reports_controller_failures() {
    assert_eq!(Sd::from_init_status(-1).err(), Some(SdError::Other));
    let sd = Sd;
    assert_eq!(sd.read_outcome(512, 0), Ok(()));
    assert_eq!(sd.read_outcome(0, -1), Err(SdError::TimedOut));
    assert_eq!(sd.read_outcome(0, -2), Err(SdError::Other));
}

#[test]
fn image_sizes_are_whole_sectors() {
    assert_eq!(image_file_size(512, 128), Ok(128_000_000));
    assert_eq!(image_file_size(512, 0), Err(ImageError::EmptyImage));
    assert_eq!(image_file_size(0, 0), Err(ImageError::EmptyImage));
    assert_eq!(image_file_size(4096, 1), Err(ImageError::PartialSector));
}

#[test]
fn only_four_partitions_exist() {
    assert_eq!(partition_index(0), Ok(0));
    assert_eq!(partition_index(3), Ok(3));
    assert_eq!(partition_index(4), Err(ImageError::InvalidPartition));
}

#[test]
fn sectors_lie_end_to_end() {
    assert_eq!(sector_offset(512, 3), 1536);
    assert_eq!(sector_span(512, 1000), 512);
    assert_eq!(sector_span(512, 100), 100);
}

#[test]
fn the_bootloader_allocator_exists() {
    assert_eq!(PanicAllocator::new(), PanicAllocator);
}
