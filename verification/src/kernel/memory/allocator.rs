use vstd::prelude::*;

use crate::kern::allocator::{
    align_down, align_down_spec, align_up, align_up_spec, bin_of_size, block_ok, carve, carve_ok,
    free_block, take_block, Allocator, BIN_COUNT,
};

verus! {

/// The kernel's allocator: a binned buddy allocator once initialized.
pub struct KernelAllocator {
    allocator: Option<Allocator>,
}

impl KernelAllocator {
    /// The allocator, once initialized.
    pub closed spec fn inner(&self) -> Option<Allocator> {
        self.allocator
    }

    pub open spec fn wf(&self) -> bool {
        self.inner() matches Some(a) ==> a.wf()
    }

    /// Returns an uninitialized allocator; it must be initialized before
    /// the first allocation.
    pub fn uninitialized() -> (r: Self)
        ensures
            r.inner() is None,
            r.wf(),
    {
        KernelAllocator { allocator: None }
    }

    /// A description of the allocator's state: "Initialized" or "Not yet
    /// initialized".
    pub fn describe(&self) -> (r: String)
        ensures
            self.inner() is Some ==> r@ == "Initialized"@,
            self.inner() is None ==> r@ == "Not yet initialized"@,
    {
        match &self.allocator {
            Some(_) => String::from_str("Initialized"),
            None => String::from_str("Not yet initialized"),
        }
    }

    /// Initializes the allocator over the memory region `[start, end)`.
    pub fn initialize(&mut self, start: usize, end: usize)
        requires
            carve_ok((BIN_COUNT - 1) as nat, start as int, end as int),
        ensures
            final(self).wf(),
            final(self).inner() matches Some(a) && a.free_lists() == carve(
                Seq::new(BIN_COUNT as nat, |k: int| Seq::<usize>::empty()),
                (BIN_COUNT - 1) as nat,
                start as int,
                end as int,
            ),
    {
        self.allocator = Some(Allocator::new(start, end));
    }

    /// Allocates a block of `size` bytes aligned to `align` (see
    /// `Allocator::allocate`); 0 when no block is free.
    pub fn allocate(&mut self, size: usize, align: usize) -> (r: usize)
        requires
            old(self).wf(),
            old(self).inner() is Some,
            align > 0,
        ensures
            final(self).wf(),
            final(self).inner() is Some,
            ({
                let (lists, taken) = take_block(
                    old(self).inner()->0.free_lists(),
                    bin_of_size(size as nat),
                    align as int,
                );
                &&& final(self).inner()->0.free_lists() == lists
                &&& r == match taken {
                    Some(a) => a,
                    None => 0,
                }
            }),
    {
        match self.allocator.take() {
            Some(mut allocator) => {
                let r = allocator.allocate(size, align);
                self.allocator = Some(allocator);
                r
            },
            None => 0,
        }
    }

    /// Returns the block of `size` bytes at `ptr` (see
    /// `Allocator::deallocate`).
    pub fn deallocate(&mut self, ptr: usize, size: usize)
        requires
            old(self).wf(),
            old(self).inner() is Some,
            bin_of_size(size as nat) < BIN_COUNT,
            block_ok(ptr as int, bin_of_size(size as nat)),
        ensures
            final(self).wf(),
            final(self).inner() matches Some(a) && a.free_lists() == free_block(
                old(self).inner()->0.free_lists(),
                ptr as int,
                bin_of_size(size as nat),
            ),
    {
        match self.allocator.take() {
            Some(mut allocator) => {
                allocator.deallocate(ptr, size);
                self.allocator = Some(allocator);
            },
            None => {},
        }
    }
}

/// The size of the pages the usable memory is rounded to.
pub const MEMORY_PAGE_SIZE: usize = 4096;

/// The index of the first memory description among `mems` (or its length).
pub open spec fn first_memory(mems: Seq<Option<(u32, u32)>>, i: int) -> int
    decreases mems.len() - i,
{
    if i < 0 || i >= mems.len() {
        mems.len() as int
    } else if mems[i] is Some {
        i
    } else {
        first_memory(mems, i + 1)
    }
}

/// The usable memory a description `(start, size)` gives, past the end of
/// the kernel's image at `binary_end`: from the later of the two starts,
/// rounded up to a page, to the end of the memory, rounded down to a page.
pub open spec fn usable_region(start: u32, size: u32, binary_end: usize) -> (int, int) {
    let from = if start as int >= binary_end as int { start as int } else { binary_end as int };
    (align_up_spec(from, MEMORY_PAGE_SIZE as int), align_down_spec(start + size, MEMORY_PAGE_SIZE as int))
}

/// The usable memory, as `(start, end)`, from the first memory
/// description among the boot tags `mems` (`None` for tags that describe
/// something else); `None` when no tag describes memory.
pub fn memory_map(mems: &[Option<(u32, u32)>], binary_end: usize) -> (r: Option<(usize, usize)>)
    requires
        first_memory(mems@, 0) < mems@.len() ==> ({
            let (start, size) = mems@[first_memory(mems@, 0)]->0;
            &&& start + size <= u32::MAX
            &&& binary_end + MEMORY_PAGE_SIZE <= usize::MAX
            &&& start + MEMORY_PAGE_SIZE <= usize::MAX
        }),
    ensures
        first_memory(mems@, 0) >= mems@.len() ==> r is None,
        first_memory(mems@, 0) < mems@.len() ==> ({
            let (start, size) = mems@[first_memory(mems@, 0)]->0;
            let (from, to) = usable_region(start, size, binary_end);
            r matches Some((a, b)) && a == from && b == to
        }),
{
    let mut i: usize = 0;
    while i < mems.len()
        invariant
            i <= mems@.len(),
            first_memory(mems@, 0) == first_memory(mems@, i as int),
            first_memory(mems@, 0) < mems@.len() ==> ({
                let (start, size) = mems@[first_memory(mems@, 0)]->0;
                &&& start + size <= u32::MAX
                &&& binary_end + MEMORY_PAGE_SIZE <= usize::MAX
                &&& start + MEMORY_PAGE_SIZE <= usize::MAX
            }),
        decreases mems@.len() - i,
    {
        match mems[i] {
            Some((start, size)) => {
                let from = if start as usize >= binary_end {
                    start as usize
                } else {
                    binary_end
                };
                proof {
                    vstd::arithmetic::div_mod::lemma_mod_bound(from as int, MEMORY_PAGE_SIZE as int);
                }
                let start_address = align_up(from, MEMORY_PAGE_SIZE);
                let end_address = align_down((size + start) as usize, MEMORY_PAGE_SIZE);
                return Some((start_address, end_address));
            },
            None => {},
        }
        i += 1;
    }
    None
}

} // verus!
