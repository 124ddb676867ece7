use rustos::kern::allocator::{align_down, align_up, Allocator};
use rustos::kernel::memory::allocator::KernelAllocator;

const START: usize = 0x10000;

#[test]
fn alignment_rounds_to_multiples() {
    assert_eq!(align_down(0x1234, 0x100), 0x1200);
    assert_eq!(align_down(0x1200, 0x100), 0x1200);
    assert_eq!(align_up(0x1201, 0x100), 0x1300);
    assert_eq!(align_up(0x1200, 0x100), 0x1200);
    assert_eq!(align_up(0, 8), 0);
}

#[test]
fn a_block_is_handed_out_once() {
    let mut allocator = Allocator::new(START, START + 0x100);
    assert_eq!(allocator.allocate(0x100, 8), START);
    assert_eq!(allocator.allocate(8, 8), 0);
}

#[test]
fn requests_are_rounded_up_to_a_bin() {
    let mut allocator = Allocator::new(START, START + 0x100);
    let a = allocator.allocate(100, 8);
    let b = allocator.allocate(100, 8);
    assert_ne!(a, 0);
    assert_ne!(b, 0);
    assert_ne!(a, b);
    assert_eq!(a % 128, 0);
    assert_eq!(b % 128, 0);
    assert_eq!(allocator.allocate(1, 1), 0);
}

#[test]
fn small_blocks_are_split_off_and_merge_back() {
    let mut allocator = Allocator::new(START, START + 0x100);
    let small = allocator.allocate(16, 16);
    assert!(small >= START && small < START + 0x100);
    assert_eq!(small % 16, 0);
    allocator.deallocate(small, 16);
    assert_eq!(allocator.allocate(0x100, 0x100), START);
}

#[test]
fn alignment_larger_than_the_size_is_honoured() {
    let mut allocator = Allocator::new(START, START + 0x1000);
    let a = allocator.allocate(8, 0x800);
    assert_ne!(a, 0);
    assert_eq!(a % 0x800, 0);
}

#[test]
fn kernel_allocator_serves_after_initialization() {
    let mut allocator = KernelAllocator::uninitialized();
    allocator.initialize(START, START + 0x100);
    assert_eq!(allocator.allocate(0x100, 8), START);
    allocator.deallocate(START, 0x100);
    assert_eq!(allocator.allocate(0x80, 8) % 0x80, 0);
}

use rustos::kernel::memory::allocator::memory_map;

#[test]
fn usable_memory_starts_after_the_kernel_image() {
    let tags = [None, Some((0u32, 0x3c00_0000u32)), Some((0x4000_0000u32, 0x1000u32))];
    assert_eq!(memory_map(&tags, 0x8_1234), Some((0x8_2000, 0x3c00_0000)));
    assert_eq!(memory_map(&[Some((0x10_0000u32, 0x1_0800u32))], 0x1000), Some((0x10_0000, 0x11_0000)));
    assert_eq!(memory_map(&[None, None], 0x1000), None);
}

#[test]
fn a_small_region_is_carved_into_the_smallest_blocks() {
    let mut allocator = Allocator::new(8, 24);
    let first = allocator.allocate(8, 8);
    let second = allocator.allocate(8, 8);
    assert!(first == 8 || first == 16);
    assert!(second == 8 || second == 16);
    assert_ne!(first, second);
    assert_eq!(allocator.allocate(8, 8), 0);
}

#[test]
fn the_kernel_allocator_describes_its_state() {
    let mut allocator = KernelAllocator::uninitialized();
    assert_eq!(allocator.describe(), "Not yet initialized");
    allocator.initialize(START, START + 0x100);
    assert_eq!(allocator.describe(), "Initialized");
}

#[test]
fn buddies_differ_in_the_bit_of_their_size() {
    let mut allocator = Allocator::new(START, START + 16);
    let first = allocator.allocate(8, 8);
    let second = allocator.allocate(8, 8);
    assert_ne!(first, 0);
    assert_ne!(second, 0);
    assert_eq!(first ^ 8, second);
    assert_eq!(allocator.allocate(8, 8), 0);
}

#[test]
fn freeing_what_was_allocated_gives_the_space_back() {
    let mut allocator = Allocator::new(START, START + 0x100);
    let small = allocator.allocate(8, 8);
    assert_ne!(small, 0);
    assert_eq!(allocator.allocate(0x100, 8), 0);
    allocator.deallocate(small, 8);
    assert_eq!(allocator.allocate(0x100, 8), START);
}

#[test]
fn a_new_allocator_hands_out_the_whole_aligned_region_once() {
    let mut allocator = Allocator::new(START + 3, START + 0x40 + 5);
    let mut total = 0;
    let mut blocks = Vec::new();
    loop {
        let a = allocator.allocate(8, 8);
        if a == 0 {
            break;
        }
        blocks.push(a);
        total += 8;
    }
    blocks.sort();
    blocks.dedup();
    assert_eq!(blocks.len() * 8, total);
    assert_eq!(total, 0x40 - 8);
    assert_eq!(blocks[0], START + 8);
    assert_eq!(*blocks.last().unwrap(), START + 0x38);
}
