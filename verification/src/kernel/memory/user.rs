//! A process's page table: user addresses count from the user image base,
//! pages are mapped fresh or shared copy-on-write with another process,
//! and a write to a shared page is resolved by copying it when it is still
//! shared.

use vstd::prelude::*;

use crate::kernel::error::OsError;
use crate::kernel::memory::entry::{
    access_of, cow, execute_never_of, is_user_access, remove_cow, shared_entry, CowResolution,
    L3Entry, PagePermissions, KERN_RW,
};
use crate::kernel::memory::frames::FrameReferenceCounts;
use crate::kernel::memory::pagetable::{
    level2_index, level3_index, locatable, PageTable, L3_ENTRIES, L3_TABLES,
};

verus! {

/// The page table of a user address space whose addresses start at the
/// user image base.
pub struct UserPageTable {
    base: u64,
    table: PageTable,
}

/// The physical address of the frame an entry maps.
pub open spec fn frame_address(entry: L3Entry) -> u64 {
    (entry.page_number as int * 0x10000) as u64
}

/// The user address of slot `k` of the tables laid end to end, for a table
/// based at `base`.
pub open spec fn slot_address(base: u64, k: int) -> int {
    base + (k / L3_ENTRIES as int) * 0x2000_0000 + (k % L3_ENTRIES as int) * 0x10000
}

/// The valid entries among the first `n` slots, with their user addresses,
/// in slot order.
pub open spec fn allocated_upto(table: PageTable, base: u64, n: int) -> Seq<(u64, L3Entry)>
    decreases n,
{
    if n <= 0 {
        seq![]
    } else {
        let before = allocated_upto(table, base, n - 1);
        let e = table.entry((n - 1) / L3_ENTRIES as int, (n - 1) % L3_ENTRIES as int);
        if e.valid {
            before.push((slot_address(base, n - 1) as u64, e))
        } else {
            before
        }
    }
}

/// The first slot from `k` on whose entry is not valid (or the number of
/// slots).
pub open spec fn first_free_slot(table: PageTable, k: int) -> int
    decreases L3_TABLES * L3_ENTRIES - k,
{
    if k < 0 || k >= L3_TABLES * L3_ENTRIES {
        (L3_TABLES * L3_ENTRIES) as int
    } else if !table.entry(k / L3_ENTRIES as int, k % L3_ENTRIES as int).valid {
        k
    } else {
        first_free_slot(table, k + 1)
    }
}

proof fn lemma_first_free_slot(table: PageTable, k: int)
    requires
        0 <= k <= L3_TABLES * L3_ENTRIES,
    ensures
        k <= first_free_slot(table, k) <= L3_TABLES * L3_ENTRIES,
    decreases L3_TABLES * L3_ENTRIES - k,
{
    if k < L3_TABLES * L3_ENTRIES && table.entry(k / L3_ENTRIES as int, k % L3_ENTRIES as int).valid {
        lemma_first_free_slot(table, k + 1);
    }
}

/// What a fork makes of an entry: shared copy-on-write when it is valid,
/// `otherwise` when it is not.
pub open spec fn forked(e: L3Entry, otherwise: L3Entry) -> L3Entry {
    if e.valid {
        shared_entry(e)
    } else {
        otherwise
    }
}

/// The pins that sharing the valid entries among the first `n` slots adds
/// to the frame at `address`: one per entry, and one more per entry that
/// was not shared yet.
pub open spec fn share_pins(table: PageTable, address: u64, n: int) -> nat
    decreases n,
{
    if n <= 0 {
        0
    } else {
        let e = table.entry((n - 1) / L3_ENTRIES as int, (n - 1) % L3_ENTRIES as int);
        share_pins(table, address, n - 1) + if e.valid && frame_address(e) == address {
            if e.copy_on_write {
                1nat
            } else {
                2nat
            }
        } else {
            0nat
        }
    }
}

proof fn lemma_share_pins_grow(table: PageTable, address: u64, n: int, m: int)
    requires
        0 <= n <= m,
    ensures
        share_pins(table, address, n) <= share_pins(table, address, m),
    decreases m - n,
{
    if n < m {
        lemma_share_pins_grow(table, address, n, m - 1);
    }
}

/// A fresh owned entry mapping page `page_number` with the permissions of
/// user entry `e`, as a fork that copies pages makes for it.
pub open spec fn copied_entry(e: L3Entry, page_number: u32) -> L3Entry {
    L3Entry {
        valid: true,
        page_number,
        access: access_of(e.permissions_spec()),
        execute_never: execute_never_of(e.permissions_spec()),
        copy_on_write: false,
    }
}

/// Fewer slots hold no more mapped pages.
proof fn lemma_allocated_upto_grows(table: PageTable, base: u64, n: int, m: int)
    requires
        0 <= n <= m,
    ensures
        allocated_upto(table, base, n).len() <= allocated_upto(table, base, m).len(),
    decreases m,
{
    if n < m {
        lemma_allocated_upto_grows(table, base, n, m - 1);
    }
}

/// The pin counts after `address` is pinned `times` more times.
pub open spec fn pinned(counts: Map<u64, usize>, pin_count: nat, address: u64, times: nat) -> Map<u64, usize> {
    counts.insert(address, (pin_count + times) as usize)
}

impl UserPageTable {
    /// The user image base: user address `base` maps through the first
    /// entry.
    pub closed spec fn base(&self) -> u64 {
        self.base
    }

    /// The underlying table, indexed by address relative to the base.
    pub closed spec fn table(&self) -> PageTable {
        self.table
    }

    pub closed spec fn wf(&self) -> bool {
        self.table.wf()
    }

    /// Whether every mapped page's user addresses fit in 64 bits.
    pub open spec fn mapped_pages_addressable(&self) -> bool {
        forall|l2: int, l3: int|
            0 <= l2 < L3_TABLES && 0 <= l3 < L3_ENTRIES && (#[trigger] self.table().entry(l2, l3)).valid ==> self.base()
                + l2 * 0x2000_0000 + l3 * 0x10000 + 0x10000 <= u64::MAX + 1
    }

    /// Whether `va` is a page-aligned user address the table can map.
    pub open spec fn user_page(&self, va: u64) -> bool {
        va >= self.base() && locatable((va - self.base()) as u64)
    }

    /// The entry for user address `va`.
    pub open spec fn entry_at(&self, va: u64) -> L3Entry {
        let rel = (va - self.base()) as u64;
        self.table().entry(level2_index(rel), level3_index(rel))
    }

    /// Whether the tables differ at most in the entry for `va`.
    pub open spec fn same_except(&self, other: &UserPageTable, va: u64) -> bool {
        let rel = (va - self.base()) as u64;
        forall|l2: int, l3: int|
            0 <= l2 < L3_TABLES && 0 <= l3 < L3_ENTRIES && (l2 != level2_index(rel) || l3
                != level3_index(rel)) ==> #[trigger] self.table().entry(l2, l3) == other.table().entry(
                l2,
                l3,
            )
    }

    /// An address space with nothing mapped, starting at `base`.
    pub fn new(base: u64) -> (r: Self)
        ensures
            r.wf(),
            r.base() == base,
            forall|l2: int, l3: int|
                0 <= l2 < L3_TABLES && 0 <= l3 < L3_ENTRIES ==> !(#[trigger] r.table().entry(l2, l3)).valid,
    {
        UserPageTable { base, table: PageTable::new() }
    }

    /// Whether user address `va` is mapped.
    pub fn is_valid(&self, va: u64) -> (r: bool)
        requires
            self.wf(),
            self.user_page(va),
        ensures
            r == self.entry_at(va).valid,
    {
        self.table.is_valid(va - self.base)
    }

    /// Maps user address `va` to physical page `page_number` with
    /// `permissions`, owned by this address space. The address must be a
    /// user page that is not mapped yet.
    pub fn allocate(&mut self, va: u64, page_number: u32, permissions: PagePermissions)
        requires
            old(self).wf(),
            old(self).user_page(va),
            !old(self).entry_at(va).valid,
        ensures
            final(self).wf(),
            final(self).base() == old(self).base(),
            final(self).entry_at(va) == (L3Entry {
                valid: true,
                page_number,
                access: access_of(permissions),
                execute_never: execute_never_of(permissions),
                copy_on_write: false,
            }),
            final(self).same_except(old(self), va),
    {
        let rel = va - self.base;
        let mut entry = L3Entry {
            valid: true,
            page_number,
            access: KERN_RW,
            execute_never: false,
            copy_on_write: false,
        };
        entry.set_permissions(permissions);
        self.table.set_entry(rel, entry);
    }

    /// Maps user address `va` to the page of `other` (another address
    /// space's entry), shared copy-on-write: `other` loses write access
    /// and is marked copy-on-write, and this address space maps the page
    /// the same way. The frame is pinned once for the new mapping, and once
    /// more for `other` when it was not shared before.
    pub fn cow(&mut self, va: u64, other: &mut L3Entry, frames: &mut FrameReferenceCounts) -> (r: Result<(), OsError>)
        requires
            old(self).wf(),
            old(self).user_page(va),
            !old(self).entry_at(va).valid,
            is_user_access(old(other).access),
            old(frames).wf(),
            old(frames).pin_count(frame_address(*old(other))) + (if old(other).copy_on_write {
                1int
            } else {
                2int
            }) <= usize::MAX,
        ensures
            r is Ok,
            *final(other) == shared_entry(*old(other)),
            final(self).wf(),
            final(self).base() == old(self).base(),
            final(other).permissions_spec() == crate::kernel::memory::entry::shared_permissions(
                old(other).permissions_spec(),
            ),
            final(other).copy_on_write,
            final(other).valid == old(other).valid,
            final(other).page_number == old(other).page_number,
            final(self).entry_at(va) == *final(other),
            final(self).same_except(old(self), va),
            final(frames).wf(),
            final(frames).counts() == pinned(
                old(frames).counts(),
                old(frames).pin_count(frame_address(*old(other))),
                frame_address(*old(other)),
                if old(other).copy_on_write { 1 } else { 2 },
            ),
    {
        let rel = va - self.base;
        let address = other.address();
        let (shared, newly_shared) = cow(other);
        if newly_shared {
            frames.pin_frame(address);
        }
        self.table.set_entry(rel, shared);
        frames.pin_frame(address);
        proof {
            assert(final(frames).counts() =~= pinned(
                old(frames).counts(),
                old(frames).pin_count(frame_address(*old(other))),
                frame_address(*old(other)),
                if old(other).copy_on_write { 1 } else { 2 },
            ));
        }
        Ok(())
    }

    /// Decides how a write fault at user address `va` is resolved: an
    /// address below the user base is a bad address; a page that is not
    /// mapped copy-on-write is an error; otherwise the page becomes
    /// writable and owned, and it must be copied first when its frame is
    /// still pinned by another mapping.
    pub fn cow_fault(&self, va: u64, frames: &FrameReferenceCounts) -> (r: Result<CowResolution, OsError>)
        requires
            self.wf(),
            va >= self.base() ==> self.user_page(va),
            va >= self.base() && self.entry_at(va).valid && self.entry_at(va).copy_on_write
                ==> is_user_access(self.entry_at(va).access),
        ensures
            va < self.base() ==> r == Err::<CowResolution, OsError>(OsError::BadAddress),
            va >= self.base() ==> ({
                let e = self.entry_at(va);
                let pins = frames.pin_count(frame_address(e));
                &&& !e.valid || !e.copy_on_write ==> r == Err::<CowResolution, OsError>(OsError::Unknown)
                &&& e.valid && e.copy_on_write ==> r is Ok && r->Ok_0.copy_page == (pins > 1)
                    && r->Ok_0.entry.permissions_spec() == crate::kernel::memory::entry::owned_permissions(
                    e.permissions_spec(),
                ) && !r->Ok_0.entry.copy_on_write && r->Ok_0.entry.valid
                    && r->Ok_0.entry.page_number == e.page_number
            }),
    {
        if va < self.base {
            return Err(OsError::BadAddress);
        }
        let entry = self.table.get_entry(va - self.base);
        let pins = frames.get_frame_pin_count(entry.address());
        remove_cow(entry, pins)
    }

    /// Completes a resolved write fault at user address `va`: the frame
    /// the page was shared in is unpinned once, and the resolved entry is
    /// installed, mapping the page it was copied to (if it was copied) or
    /// its own page.
    pub fn complete_cow_fault(
        &mut self,
        va: u64,
        resolution: CowResolution,
        copied_to: Option<u32>,
        frames: &mut FrameReferenceCounts,
    )
        requires
            old(self).wf(),
            old(self).user_page(va),
            old(frames).wf(),
        ensures
            final(self).wf(),
            final(self).base() == old(self).base(),
            final(self).entry_at(va) == (L3Entry {
                page_number: match copied_to {
                    Some(p) => p,
                    None => resolution.entry.page_number,
                },
                ..resolution.entry
            }),
            final(self).same_except(old(self), va),
            final(frames).wf(),
            old(frames).pin_count(frame_address(resolution.entry)) == 0 ==> final(frames).counts()
                == old(frames).counts(),
            old(frames).pin_count(frame_address(resolution.entry)) == 1 ==> final(frames).counts()
                == old(frames).counts().remove(frame_address(resolution.entry)),
            old(frames).pin_count(frame_address(resolution.entry)) > 1 ==> final(frames).counts()
                == old(frames).counts().insert(
                frame_address(resolution.entry),
                (old(frames).pin_count(frame_address(resolution.entry)) - 1) as usize,
            ),
    {
        let mut entry = resolution.entry;
        frames.unpin_frame(entry.address());
        match copied_to {
            Some(page_number) => entry.set_page_number(page_number),
            None => {},
        }
        self.table.set_entry(va - self.base, entry);
    }

    /// Grows the heap by one page: maps physical page `page_number`
    /// read-write at the first unmapped page after the image's first page,
    /// and returns that page's user address and the page size.
    pub fn sbrk(&mut self, page_number: u32) -> (r: (u64, u64))
        requires
            old(self).wf(),
            first_free_slot(old(self).table(), 1) < L3_TABLES * L3_ENTRIES,
            old(self).base() + (first_free_slot(old(self).table(), 1) + 1) * 0x10000 <= u64::MAX + 1,
        ensures
            ({
                let k = first_free_slot(old(self).table(), 1);
                &&& r == ((old(self).base() + k * 0x10000) as u64, 0x10000u64)
                &&& final(self).user_page(r.0)
                &&& final(self).entry_at(r.0) == (L3Entry {
                    valid: true,
                    page_number,
                    access: access_of(PagePermissions::RW),
                    execute_never: execute_never_of(PagePermissions::RW),
                    copy_on_write: false,
                })
                &&& final(self).same_except(old(self), r.0)
            }),
            final(self).wf(),
            final(self).base() == old(self).base(),
    {
        proof {
            lemma_first_free_slot(self.table(), 1);
        }
        let total = L3_TABLES * L3_ENTRIES;
        let mut k: usize = 1;
        while k < total && self.table.entry_at_slot(k).is_valid()
            invariant
                total == L3_TABLES * L3_ENTRIES,
                1 <= k <= total,
                self.wf(),
                first_free_slot(self.table(), 1) == first_free_slot(self.table(), k as int),
                first_free_slot(self.table(), 1) < total,
                self.base() + (first_free_slot(self.table(), 1) + 1) * 0x10000 <= u64::MAX + 1,
            decreases total - k,
        {
            k += 1;
        }
        let rel = (k as u64) * 0x10000;
        proof {
            assert(rel / 0x2000_0000 == k / 8192 && (rel / 0x10000) % 8192 == k % 8192 && rel % 0x10000 == 0)
                by (nonlinear_arith)
                requires
                    rel == k * 0x10000,
                    k < 3 * 8192,
            ;
        }
        let address = self.base + rel;
        self.allocate(address, page_number, PagePermissions::RW);
        (address, 0x10000)
    }

    /// Shares every mapped page of this address space copy-on-write with
    /// the empty address space `child` (as a fork does): each mapped entry
    /// here loses write access and is marked copy-on-write, `child` maps
    /// the same page at the same address the same way, and each frame is
    /// pinned once per shared entry and once more per entry not shared
    /// before.
    #[verifier::spinoff_prover]
    #[verifier::rlimit(40)]
    pub fn fork_shared(&mut self, child: &mut UserPageTable, frames: &mut FrameReferenceCounts)
        requires
            old(self).wf(),
            old(child).wf(),
            old(child).base() == old(self).base(),
            old(self).mapped_pages_addressable(),
            forall|l2: int, l3: int|
                0 <= l2 < L3_TABLES && 0 <= l3 < L3_ENTRIES ==> !(#[trigger] old(child).table().entry(
                    l2,
                    l3,
                )).valid,
            forall|l2: int, l3: int|
                0 <= l2 < L3_TABLES && 0 <= l3 < L3_ENTRIES && (#[trigger] old(self).table().entry(
                    l2,
                    l3,
                )).valid ==> is_user_access(old(self).table().entry(l2, l3).access),
            old(frames).wf(),
            forall|a: u64|
                #[trigger] old(frames).pin_count(a) + share_pins(old(self).table(), a, L3_TABLES * L3_ENTRIES)
                    <= usize::MAX,
        ensures
            final(self).wf(),
            final(child).wf(),
            final(self).base() == old(self).base(),
            final(child).base() == old(child).base(),
            forall|l2: int, l3: int|
                0 <= l2 < L3_TABLES && 0 <= l3 < L3_ENTRIES ==> #[trigger] final(self).table().entry(l2, l3)
                    == forked(old(self).table().entry(l2, l3), old(self).table().entry(l2, l3)),
            forall|l2: int, l3: int|
                0 <= l2 < L3_TABLES && 0 <= l3 < L3_ENTRIES ==> #[trigger] final(child).table().entry(l2, l3)
                    == forked(old(self).table().entry(l2, l3), old(child).table().entry(l2, l3)),
            final(frames).wf(),
            forall|a: u64|
                #[trigger] final(frames).pin_count(a) == old(frames).pin_count(a) + share_pins(
                    old(self).table(),
                    a,
                    L3_TABLES * L3_ENTRIES,
                ),
    {
        let ghost start = self.table();
        let ghost child_start = child.table();
        let total = L3_TABLES * L3_ENTRIES;
        let mut k: usize = 0;
        while k < total
            invariant
                total == L3_TABLES * L3_ENTRIES,
                k <= total,
                self.wf(),
                child.wf(),
                self.base() == old(self).base(),
                child.base() == old(self).base(),
                start == old(self).table(),
                child_start == old(child).table(),
                forall|l2: int, l3: int|
                    0 <= l2 < L3_TABLES && 0 <= l3 < L3_ENTRIES && (#[trigger] start.entry(l2, l3)).valid ==> self.base()
                        + l2 * 0x2000_0000 + l3 * 0x10000 + 0x10000 <= u64::MAX + 1,
                forall|l2: int, l3: int|
                    0 <= l2 < L3_TABLES && 0 <= l3 < L3_ENTRIES ==> #[trigger] self.table().entry(l2, l3)
                        == if l2 * L3_ENTRIES + l3 < k {
                        forked(start.entry(l2, l3), start.entry(l2, l3))
                    } else {
                        start.entry(l2, l3)
                    },
                forall|l2: int, l3: int|
                    0 <= l2 < L3_TABLES && 0 <= l3 < L3_ENTRIES ==> #[trigger] child.table().entry(l2, l3)
                        == if l2 * L3_ENTRIES + l3 < k {
                        forked(start.entry(l2, l3), child_start.entry(l2, l3))
                    } else {
                        child_start.entry(l2, l3)
                    },
                forall|l2: int, l3: int|
                    0 <= l2 < L3_TABLES && 0 <= l3 < L3_ENTRIES ==> !(#[trigger] child_start.entry(l2, l3)).valid,
                forall|l2: int, l3: int|
                    0 <= l2 < L3_TABLES && 0 <= l3 < L3_ENTRIES && (#[trigger] start.entry(l2, l3)).valid
                        ==> is_user_access(start.entry(l2, l3).access),
                frames.wf(),
                forall|a: u64|
                    #[trigger] frames.pin_count(a) == old(frames).pin_count(a) + share_pins(start, a, k as int),
                forall|a: u64|
                    #[trigger] old(frames).pin_count(a) + share_pins(start, a, total as int) <= usize::MAX,
            decreases total - k,
        {
            let mut entry = self.table.entry_at_slot(k);
            let ghost l2 = k as int / 8192;
            let ghost l3 = k as int % 8192;
            proof {
                assert(k as int == l2 * 8192 + l3 && 0 <= l2 < 3 && 0 <= l3 < 8192) by (nonlinear_arith)
                    requires
                        l2 == k as int / 8192,
                        l3 == k as int % 8192,
                        k < 3 * 8192,
                ;
                assert(self.table().entry(l2, l3) == start.entry(l2, l3));
                assert(entry == start.entry(l2, l3));
            }
            let ghost self_before = *self;
            let ghost child_before = *child;
            if entry.is_valid() {
                let rel = (k as u64) * 0x10000;
                proof {
                    assert(rel / 0x2000_0000 == k / 8192 && (rel / 0x10000) % 8192 == k % 8192 && rel
                        % 0x10000 == 0) by (nonlinear_arith)
                        requires
                            rel == k * 0x10000,
                            k < 3 * 8192,
                    ;
                    let a = frame_address(entry);
                    lemma_share_pins_grow(start, a, k as int + 1, total as int);
                    assert(share_pins(start, a, k as int + 1) == share_pins(start, a, k as int) + if entry.copy_on_write {
                        1nat
                    } else {
                        2nat
                    });
                    assert(frames.pin_count(a) == old(frames).pin_count(a) + share_pins(start, a, k as int));
                    assert(old(frames).pin_count(a) + share_pins(start, a, total as int) <= usize::MAX);
                    assert(!child.table().entry(l2, l3).valid);
                }
                let va = self.base + rel;
                let ghost frames_before = *frames;
                let _ = child.cow(va, &mut entry, frames);
                self.table.set_entry_at_slot(k, entry);
                proof {
                    let a0 = frame_address(start.entry(l2, l3));
                    assert forall|a: u64| #[trigger] frames.pin_count(a) == old(frames).pin_count(a) + share_pins(
                        start,
                        a,
                        k as int + 1,
                    ) by {
                        assert(frames_before.pin_count(a) == old(frames).pin_count(a) + share_pins(start, a, k as int));
                        if a != a0 {
                            assert(frames.pin_count(a) == frames_before.pin_count(a));
                        }
                    }
                    assert(level2_index(rel) == l2 && level3_index(rel) == l3);
                    assert(child.same_except(&child_before, va));
                }
            } else {
                proof {
                    assert forall|a: u64| #[trigger] frames.pin_count(a) == old(frames).pin_count(a) + share_pins(
                        start,
                        a,
                        k as int + 1,
                    ) by {
                        assert(share_pins(start, a, k as int + 1) == share_pins(start, a, k as int));
                    }
                }
            }
            proof {
                assert forall|m2: int, m3: int| 0 <= m2 < L3_TABLES && 0 <= m3 < L3_ENTRIES implies #[trigger] self.table().entry(m2, m3)
                    == if m2 * L3_ENTRIES + m3 < k + 1 {
                    forked(start.entry(m2, m3), start.entry(m2, m3))
                } else {
                    start.entry(m2, m3)
                } by {
                    if m2 == l2 && m3 == l3 {
                    } else {
                        assert(m2 * 8192 + m3 != k);
                        assert(self.table().entry(m2, m3) == self_before.table().entry(m2, m3));
                    }
                }
                assert forall|m2: int, m3: int| 0 <= m2 < L3_TABLES && 0 <= m3 < L3_ENTRIES implies #[trigger] child.table().entry(m2, m3)
                    == if m2 * L3_ENTRIES + m3 < k + 1 {
                    forked(start.entry(m2, m3), child_start.entry(m2, m3))
                } else {
                    child_start.entry(m2, m3)
                } by {
                    if m2 == l2 && m3 == l3 {
                    } else {
                        assert(m2 * 8192 + m3 != k);
                        assert(child.table().entry(m2, m3) == child_before.table().entry(m2, m3));
                    }
                }
            }
            k += 1;
        }
    }

    /// Maps in the empty address space `child` a fresh page for every page
    /// mapped here, at the same user address and with the same permissions
    /// (as a fork that copies pages does; the caller copies each page's
    /// bytes): the `j`th mapped page here, in table order, is backed in
    /// `child` by page `page_numbers[j]`.
    #[verifier::spinoff_prover]
    #[verifier::rlimit(40)]
    pub fn fork_copied(&self, child: &mut UserPageTable, page_numbers: &[u32])
        requires
            self.wf(),
            old(child).wf(),
            old(child).base() == self.base(),
            forall|l2: int, l3: int|
                0 <= l2 < L3_TABLES && 0 <= l3 < L3_ENTRIES ==> !(#[trigger] old(child).table().entry(l2, l3)).valid,
            forall|l2: int, l3: int|
                0 <= l2 < L3_TABLES && 0 <= l3 < L3_ENTRIES && (#[trigger] self.table().entry(l2, l3)).valid
                    ==> is_user_access(self.table().entry(l2, l3).access),
            page_numbers@.len() == allocated_upto(self.table(), self.base(), L3_TABLES * L3_ENTRIES).len(),
        ensures
            final(child).wf(),
            final(child).base() == old(child).base(),
            forall|l2: int, l3: int|
                0 <= l2 < L3_TABLES && 0 <= l3 < L3_ENTRIES ==> #[trigger] final(child).table().entry(l2, l3) == if self.table().entry(
                    l2,
                    l3,
                ).valid {
                    copied_entry(
                        self.table().entry(l2, l3),
                        page_numbers@[allocated_upto(self.table(), self.base(), l2 * L3_ENTRIES + l3).len() as int],
                    )
                } else {
                    old(child).table().entry(l2, l3)
                },
    {
        let ghost start = self.table();
        let ghost child_start = child.table();
        let total = L3_TABLES * L3_ENTRIES;
        let mut k: usize = 0;
        let mut j: usize = 0;
        while k < total
            invariant
                total == L3_TABLES * L3_ENTRIES,
                k <= total,
                self.wf(),
                child.wf(),
                start == self.table(),
                child.base() == old(child).base(),
                child_start == old(child).table(),
                j == allocated_upto(start, self.base(), k as int).len(),
                page_numbers@.len() == allocated_upto(start, self.base(), total as int).len(),
                forall|l2: int, l3: int|
                    0 <= l2 < L3_TABLES && 0 <= l3 < L3_ENTRIES && (#[trigger] start.entry(l2, l3)).valid
                        ==> is_user_access(start.entry(l2, l3).access),
                forall|l2: int, l3: int|
                    0 <= l2 < L3_TABLES && 0 <= l3 < L3_ENTRIES ==> #[trigger] child.table().entry(l2, l3)
                        == if l2 * L3_ENTRIES + l3 < k && start.entry(l2, l3).valid {
                        copied_entry(
                            start.entry(l2, l3),
                            page_numbers@[allocated_upto(start, self.base(), l2 * L3_ENTRIES + l3).len() as int],
                        )
                    } else {
                        child_start.entry(l2, l3)
                    },
            decreases total - k,
        {
            let entry = self.table.entry_at_slot(k);
            let ghost l2 = k as int / 8192;
            let ghost l3 = k as int % 8192;
            proof {
                assert(k as int == l2 * 8192 + l3 && 0 <= l2 < 3 && 0 <= l3 < 8192) by (nonlinear_arith)
                    requires
                        l2 == k as int / 8192,
                        l3 == k as int % 8192,
                        k < 3 * 8192,
                ;
                assert(entry == start.entry(l2, l3));
                lemma_allocated_upto_grows(start, self.base(), k as int + 1, total as int);
                assert(allocated_upto(start, self.base(), k as int + 1).len() == j + if entry.valid {
                    1int
                } else {
                    0int
                });
            }
            let ghost child_before = child.table();
            if entry.is_valid() {
                let copy = L3Entry::new(page_numbers[j], entry.permissions());
                child.table.set_entry_at_slot(k, copy);
                j += 1;
            }
            proof {
                assert forall|m2: int, m3: int| 0 <= m2 < L3_TABLES && 0 <= m3 < L3_ENTRIES implies #[trigger] child.table().entry(m2, m3)
                    == if m2 * L3_ENTRIES + m3 < k + 1 && start.entry(m2, m3).valid {
                    copied_entry(
                        start.entry(m2, m3),
                        page_numbers@[allocated_upto(start, self.base(), m2 * L3_ENTRIES + m3).len() as int],
                    )
                } else {
                    child_start.entry(m2, m3)
                } by {
                    if m2 == l2 && m3 == l3 {
                    } else {
                        assert(m2 * 8192 + m3 != k);
                        assert(child.table().entry(m2, m3) == child_before.entry(m2, m3));
                    }
                }
            }
            k += 1;
        }
    }

    /// The mapped pages with their user addresses, in table order.
    pub fn allocated(&self) -> (r: Vec<(u64, L3Entry)>)
        requires
            self.wf(),
            self.mapped_pages_addressable(),
        ensures
            r@ == allocated_upto(self.table(), self.base(), L3_TABLES * L3_ENTRIES),
    {
        let total = L3_TABLES * L3_ENTRIES;
        let mut result: Vec<(u64, L3Entry)> = Vec::new();
        let mut k: usize = 0;
        while k < total
            invariant
                total == L3_TABLES * L3_ENTRIES,
                k <= total,
                self.wf(),
                self.mapped_pages_addressable(),
                result@ == allocated_upto(self.table(), self.base(), k as int),
            decreases total - k,
        {
            let entry = self.table.entry_at_slot(k);
            if entry.is_valid() {
                let l2 = (k / L3_ENTRIES) as u64;
                let l3 = (k % L3_ENTRIES) as u64;
                assert(l2 * 0x2000_0000 + l3 * 0x10000 < L3_TABLES * 0x2000_0000) by (nonlinear_arith)
                    requires
                        l2 < L3_TABLES,
                        l3 < L3_ENTRIES,
                ;
                let address = self.base + l2 * 0x2000_0000 + l3 * 0x10000;
                result.push((address, entry));
            }
            k += 1;
        }
        result
    }
}

} // verus!
