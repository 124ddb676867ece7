use rustos::kernel::error::OsError;
use rustos::kernel::memory::entry::{cow, remove_cow, L3Entry, PagePermissions, USER_RO, USER_RW};
use rustos::kernel::memory::frames::FrameReferenceCounts;
use rustos::kernel::memory::manager::VirtualMemoryManager;
use rustos::kernel::memory::pagetable::{locate, PageTable, PAGE_SIZE};

#[test]
fn entries_carry_permissions_and_address() {
    let entry = L3Entry::new(3, PagePermissions::RWX);
    assert!(entry.is_valid());
    assert_eq!(entry.address(), 3 * 0x10000);
    assert_eq!(entry.permissions(), PagePermissions::RWX);
    assert_eq!(entry.access, USER_RW);
    assert!(!entry.execute_never);
    assert!(!entry.is_cow());
    let ro = L3Entry::new(1, PagePermissions::RO);
    assert_eq!(ro.access, USER_RO);
    assert!(ro.execute_never);
    assert!(!L3Entry::empty().is_valid());
}

#[test]
fn setters_change_one_field() {
    let mut entry = L3Entry::new(7, PagePermissions::RW);
    entry.set_page_number(9);
    entry.set_permissions(PagePermissions::RX);
    entry.set_cow(true);
    assert_eq!(entry.page_number, 9);
    assert_eq!(entry.permissions(), PagePermissions::RX);
    assert!(entry.is_cow());
    assert!(entry.is_valid());
}

#[test]
fn sharing_takes_writing_away_once() {
    let mut entry = L3Entry::new(4, PagePermissions::RW);
    let (shared, newly) = cow(&mut entry);
    assert!(newly);
    assert_eq!(entry.permissions(), PagePermissions::RO);
    assert!(entry.is_cow());
    assert_eq!(shared, entry);
    let (_, again) = cow(&mut entry);
    assert!(!again);
    let mut exec = L3Entry::new(4, PagePermissions::RWX);
    cow(&mut exec);
    assert_eq!(exec.permissions(), PagePermissions::RX);
}

#[test]
fn resolving_a_shared_page_copies_only_when_still_shared() {
    let mut entry = L3Entry::new(5, PagePermissions::RW);
    cow(&mut entry);
    let kept = remove_cow(entry, 1).ok().unwrap();
    assert!(!kept.copy_page);
    assert_eq!(kept.entry.permissions(), PagePermissions::RW);
    assert!(!kept.entry.is_cow());
    assert_eq!(kept.entry.page_number, 5);
    let copied = remove_cow(entry, 2).ok().unwrap();
    assert!(copied.copy_page);
}

#[test]
fn resolving_an_unshared_page_is_an_error() {
    let entry = L3Entry::new(5, PagePermissions::RW);
    assert_eq!(remove_cow(entry, 1).err(), Some(OsError::Unknown));
    assert_eq!(remove_cow(L3Entry::empty(), 1).err(), Some(OsError::Unknown));
}

#[test]
fn locate_splits_the_address() {
    assert_eq!(locate(0), (0, 0));
    assert_eq!(locate(0x2000_0000 + 5 * PAGE_SIZE), (1, 5));
}

#[test]
fn page_table_maps_and_translates() {
    let mut table = PageTable::new();
    let va = 0x2000_0000 + 2 * PAGE_SIZE;
    assert!(table.is_invalid(va));
    assert_eq!(table.translate(va + 0x10), None);
    table.set_entry(va, L3Entry::new(7, PagePermissions::RW));
    assert!(table.is_valid(va));
    assert_eq!(table.get_entry(va).page_number, 7);
    assert_eq!(table.translate(va + 0x10), Some(7 * 0x10000 + 0x10));
    assert!(table.is_invalid(va + PAGE_SIZE));
}

#[test]
fn pinning_then_unpinning_restores_the_count() {
    let mut frames = FrameReferenceCounts::new();
    assert_eq!(frames.get_frame_pin_count(0x1000), 0);
    frames.pin_frame(0x1000);
    frames.pin_frame(0x1000);
    assert_eq!(frames.get_frame_pin_count(0x1000), 2);
    assert!(!frames.unpin_frame(0x1000));
    assert_eq!(frames.get_frame_pin_count(0x1000), 1);
    assert!(frames.unpin_frame(0x1000));
    assert_eq!(frames.get_frame_pin_count(0x1000), 0);
    assert!(!frames.unpin_frame(0x2000));
}

#[test]
fn memory_manager_starts_uninitialized() {
    let manager = VirtualMemoryManager::uninitialized();
    manager.initialize();
}

use rustos::kernel::memory::user::UserPageTable;

const BASE: u64 = 0x4000_0000;

#[test]
fn user_pages_are_mapped_relative_to_the_base() {
    let mut table = UserPageTable::new(BASE);
    assert!(!table.is_valid(BASE + PAGE_SIZE));
    table.allocate(BASE + PAGE_SIZE, 9, PagePermissions::RWX);
    assert!(table.is_valid(BASE + PAGE_SIZE));
    table.allocate(BASE + 0x2000_0000, 3, PagePermissions::RO);
    let mapped = table.allocated();
    assert_eq!(mapped.len(), 2);
    assert_eq!(mapped[0].0, BASE + PAGE_SIZE);
    assert_eq!(mapped[0].1, L3Entry::new(9, PagePermissions::RWX));
    assert_eq!(mapped[1].0, BASE + 0x2000_0000);
    assert_eq!(mapped[1].1.page_number, 3);
}

#[test]
fn sharing_pins_the_frame_for_both_mappings() {
    let mut frames = FrameReferenceCounts::new();
    let mut parent = L3Entry::new(5, PagePermissions::RW);
    frames.pin_frame(parent.address());
    let mut child = UserPageTable::new(BASE);
    assert_eq!(child.cow(BASE, &mut parent, &mut frames), Ok(()));
    assert_eq!(frames.get_frame_pin_count(parent.address()), 3);
    assert!(parent.is_cow());
    assert_eq!(parent.permissions(), PagePermissions::RO);
    assert_eq!(child.allocated(), vec![(BASE, parent)]);
    let mut other = UserPageTable::new(BASE);
    other.cow(BASE, &mut parent, &mut frames).unwrap();
    assert_eq!(frames.get_frame_pin_count(parent.address()), 4);
}

#[test]
fn write_faults_copy_shared_pages_and_keep_sole_ones() {
    let mut frames = FrameReferenceCounts::new();
    let mut parent = L3Entry::new(5, PagePermissions::RW);
    let mut child = UserPageTable::new(BASE);
    child.cow(BASE, &mut parent, &mut frames).unwrap();
    assert_eq!(frames.get_frame_pin_count(0x50000), 2);
    let resolution = child.cow_fault(BASE, &frames).ok().unwrap();
    assert!(resolution.copy_page);
    child.complete_cow_fault(BASE, resolution, Some(8), &mut frames);
    assert_eq!(frames.get_frame_pin_count(0x50000), 1);
    let mapped = child.allocated();
    assert_eq!(mapped[0].1.page_number, 8);
    assert_eq!(mapped[0].1.permissions(), PagePermissions::RW);
    assert!(!mapped[0].1.is_cow());
    assert_eq!(child.cow_fault(BASE, &frames).err(), Some(OsError::Unknown));
    assert_eq!(child.cow_fault(BASE - PAGE_SIZE, &frames).err(), Some(OsError::BadAddress));
}

#[test]
fn a_write_fault_on_the_last_mapping_keeps_the_page() {
    let mut frames = FrameReferenceCounts::new();
    let mut parent = L3Entry::new(6, PagePermissions::RWX);
    let mut child = UserPageTable::new(BASE);
    child.cow(BASE, &mut parent, &mut frames).unwrap();
    frames.unpin_frame(parent.address());
    let resolution = child.cow_fault(BASE, &frames).ok().unwrap();
    assert!(!resolution.copy_page);
    child.complete_cow_fault(BASE, resolution, None, &mut frames);
    assert_eq!(frames.get_frame_pin_count(0x60000), 0);
    assert_eq!(child.allocated()[0].1.page_number, 6);
    assert_eq!(child.allocated()[0].1.permissions(), PagePermissions::RWX);
}

#[test]
fn the_heap_grows_into_the_first_unmapped_page_after_the_image() {
    let mut table = UserPageTable::new(BASE);
    table.allocate(BASE, 1, PagePermissions::RWX);
    table.allocate(BASE + PAGE_SIZE, 2, PagePermissions::RW);
    assert_eq!(table.sbrk(7), (BASE + 2 * PAGE_SIZE, PAGE_SIZE));
    assert_eq!(table.sbrk(8), (BASE + 3 * PAGE_SIZE, PAGE_SIZE));
    let mapped = table.allocated();
    assert_eq!(mapped.len(), 4);
    assert_eq!(mapped[2].1, L3Entry::new(7, PagePermissions::RW));
    let mut empty = UserPageTable::new(BASE);
    assert_eq!(empty.sbrk(3).0, BASE + PAGE_SIZE);
}

#[test]
fn forking_shares_every_page_copy_on_write() {
    let mut frames = FrameReferenceCounts::new();
    let mut parent = UserPageTable::new(BASE);
    parent.allocate(BASE, 1, PagePermissions::RWX);
    parent.allocate(BASE + 4 * PAGE_SIZE, 2, PagePermissions::RW);
    frames.pin_frame(0x10000);
    frames.pin_frame(0x20000);
    let mut child = UserPageTable::new(BASE);
    parent.fork_shared(&mut child, &mut frames);
    let mine = parent.allocated();
    let theirs = child.allocated();
    assert_eq!(mine, theirs);
    assert_eq!(mine.len(), 2);
    assert_eq!(mine[0].1.permissions(), PagePermissions::RX);
    assert_eq!(mine[1].1.permissions(), PagePermissions::RO);
    assert!(mine[0].1.is_cow() && mine[1].1.is_cow());
    assert_eq!(frames.get_frame_pin_count(0x10000), 3);
    assert_eq!(frames.get_frame_pin_count(0x20000), 3);
    let mut grandchild = UserPageTable::new(BASE);
    child.fork_shared(&mut grandchild, &mut frames);
    assert_eq!(frames.get_frame_pin_count(0x10000), 4);
}

use rustos::kernel::memory::error::VirtualMemoryError;
use rustos::kernel::memory::translation::{block_size_bits, granule_encoding, table_size_bits, GranuleSize};

#[test]
fn translation_geometry_by_granule_and_level() {
    assert_eq!(table_size_bits(GranuleSize::Kb4), 12);
    assert_eq!(table_size_bits(GranuleSize::Kb64), 16);
    assert_eq!(granule_encoding(GranuleSize::Kb16), 0b01);
    assert_eq!(block_size_bits(GranuleSize::Kb4, 1), Ok(30));
    assert_eq!(block_size_bits(GranuleSize::Kb64, 3), Ok(16));
    assert_eq!(block_size_bits(GranuleSize::Kb16, 1), Err(VirtualMemoryError::InvalidLevel));
    assert_eq!(block_size_bits(GranuleSize::Kb64, 0), Err(VirtualMemoryError::InvalidLevel));
}

#[test]
fn a_copying_fork_maps_fresh_pages_at_the_same_addresses() {
    let mut parent = UserPageTable::new(BASE);
    parent.allocate(BASE + PAGE_SIZE, 9, PagePermissions::RWX);
    parent.allocate(BASE + 0x2000_0000, 3, PagePermissions::RO);
    let mut child = UserPageTable::new(BASE);
    parent.fork_copied(&mut child, &[20, 21]);
    assert_eq!(
        child.allocated(),
        vec![
            (BASE + PAGE_SIZE, L3Entry::new(20, PagePermissions::RWX)),
            (BASE + 0x2000_0000, L3Entry::new(21, PagePermissions::RO)),
        ]
    );
    assert_eq!(parent.allocated()[0].1, L3Entry::new(9, PagePermissions::RWX));
}

#[test]
fn a_user_space_at_the_top_of_the_address_space_lists_its_pages() {
    let top_base: u64 = 0xffff_ffff_c000_0000;
    let mut table = UserPageTable::new(top_base);
    table.allocate(top_base, 1, PagePermissions::RWX);
    table.allocate(0xffff_ffff_ffff_0000, 2, PagePermissions::RW);
    assert_eq!(table.sbrk(3), (top_base + PAGE_SIZE, PAGE_SIZE));
    let mapped = table.allocated();
    assert_eq!(mapped.len(), 3);
    assert_eq!(mapped[0].0, top_base);
    assert_eq!(mapped[1].0, top_base + PAGE_SIZE);
    assert_eq!(mapped[2].0, 0xffff_ffff_ffff_0000);
    assert_eq!(mapped[2].1, L3Entry::new(2, PagePermissions::RW));
}
