use vstd::prelude::*;

use crate::kernel::memory::entry::L3Entry;

verus! {

/// Pages (and so level-3 tables' reach per entry) are 64 KiB.
pub const PAGE_SIZE: u64 = 0x10000;

/// Entries per level-3 table.
pub const L3_ENTRIES: usize = 8192;

/// Level-3 tables in a page table.
pub const L3_TABLES: usize = 3;

/// The level-2 index of a virtual address: bits 41..29.
pub open spec fn level2_index(va: u64) -> int {
    (va as int / 0x2000_0000) % 8192
}

/// The level-3 index of a virtual address: bits 28..16.
pub open spec fn level3_index(va: u64) -> int {
    (va as int / 0x10000) % 8192
}

/// A virtual address that `locate` accepts: page aligned, within the
/// level-3 tables.
pub open spec fn locatable(va: u64) -> bool {
    va % PAGE_SIZE == 0 && level2_index(va) < L3_TABLES
}

/// The (level-2, level-3) indices of a virtual address.
///
/// Panics in the kernel when the address is not page aligned or its
/// level-2 index exceeds the number of level-3 tables; those inputs are
/// excluded here.
pub fn locate(va: u64) -> (r: (usize, usize))
    requires
        locatable(va),
    ensures
        r.0 == level2_index(va),
        r.1 == level3_index(va),
{
    assert((va >> 29u64) & 0x1fffu64 == (va / 0x2000_0000) % 8192) by (bit_vector);
    assert((va >> 16u64) & 0x1fffu64 == (va / 0x10000) % 8192) by (bit_vector);
    let l2_index = (va >> 29) & 0x1fff;
    let l3_index = (va >> 16) & 0x1fff;
    (l2_index as usize, l3_index as usize)
}

/// The page-aligned part of a virtual address.
pub open spec fn page_aligned(va: u64) -> u64 {
    (va - va % PAGE_SIZE) as u64
}

/// The page table of an address space: level-3 tables of 64 KiB pages.
pub struct PageTable {
    entries: Vec<L3Entry>,
}

impl PageTable {
    /// The entry for level-2 index `l2` and level-3 index `l3`.
    pub closed spec fn entry(&self, l2: int, l3: int) -> L3Entry {
        self.entries@[l2 * L3_ENTRIES + l3]
    }

    pub closed spec fn wf(&self) -> bool {
        self.entries@.len() == L3_TABLES * L3_ENTRIES
    }

    /// A page table with every entry invalid.
    pub fn new() -> (r: Self)
        ensures
            r.wf(),
            forall|l2: int, l3: int|
                0 <= l2 < L3_TABLES && 0 <= l3 < L3_ENTRIES ==> !(#[trigger] r.entry(l2, l3)).valid,
    {
        let mut entries: Vec<L3Entry> = Vec::new();
        let total = L3_TABLES * L3_ENTRIES;
        let mut i: usize = 0;
        while i < total
            invariant
                total == L3_TABLES * L3_ENTRIES,
                i <= total,
                entries@.len() == i,
                forall|j: int| 0 <= j < i ==> !(#[trigger] entries@[j]).valid,
            decreases total - i,
        {
            entries.push(L3Entry::empty());
            i += 1;
        }
        let r = PageTable { entries };
        assert forall|l2: int, l3: int| 0 <= l2 < L3_TABLES && 0 <= l3 < L3_ENTRIES implies !(
        #[trigger] r.entry(l2, l3)).valid by {
            assert(0 <= l2 * L3_ENTRIES + l3 < L3_TABLES * L3_ENTRIES) by (nonlinear_arith)
                requires
                    0 <= l2 < L3_TABLES,
                    0 <= l3 < L3_ENTRIES,
            ;
        }
        r
    }

    fn slot(va: u64) -> (r: usize)
        requires
            locatable(va),
        ensures
            r == level2_index(va) * L3_ENTRIES + level3_index(va),
            r < L3_TABLES * L3_ENTRIES,
    {
        let (l2, l3) = locate(va);
        assert(l2 * L3_ENTRIES + l3 < L3_TABLES * L3_ENTRIES) by (nonlinear_arith)
            requires
                l2 < L3_TABLES,
                l3 < L3_ENTRIES,
        ;
        l2 * L3_ENTRIES + l3
    }

    /// The entry a virtual address falls in.
    pub fn get_entry(&self, va: u64) -> (r: L3Entry)
        requires
            self.wf(),
            locatable(va),
        ensures
            r == self.entry(level2_index(va), level3_index(va)),
    {
        self.entries[PageTable::slot(va)]
    }

    /// The entry in slot `k` of the tables laid end to end: entry `k % 8192`
    /// of table `k / 8192`.
    pub fn entry_at_slot(&self, k: usize) -> (r: L3Entry)
        requires
            self.wf(),
            k < L3_TABLES * L3_ENTRIES,
        ensures
            r == self.entry(k as int / L3_ENTRIES as int, k as int % L3_ENTRIES as int),
    {
        assert(k as int == (k as int / 8192) * 8192 + k as int % 8192) by (nonlinear_arith);
        self.entries[k]
    }

    /// Sets the entry in slot `k` of the tables laid end to end.
    pub fn set_entry_at_slot(&mut self, k: usize, entry: L3Entry)
        requires
            old(self).wf(),
            k < L3_TABLES * L3_ENTRIES,
        ensures
            final(self).wf(),
            final(self).entry(k as int / L3_ENTRIES as int, k as int % L3_ENTRIES as int) == entry,
            forall|l2: int, l3: int|
                0 <= l2 < L3_TABLES && 0 <= l3 < L3_ENTRIES && l2 * L3_ENTRIES + l3 != k
                    ==> #[trigger] final(self).entry(l2, l3) == old(self).entry(l2, l3),
    {
        assert(k as int == (k as int / 8192) * 8192 + k as int % 8192) by (nonlinear_arith);
        self.entries.set(k, entry);
    }

    /// Returns `true` if the entry a virtual address falls in is valid.
    pub fn is_valid(&self, va: u64) -> (r: bool)
        requires
            self.wf(),
            locatable(va),
        ensures
            r == self.entry(level2_index(va), level3_index(va)).valid,
    {
        self.get_entry(va).is_valid()
    }

    /// Returns `true` if the entry a virtual address falls in is invalid.
    pub fn is_invalid(&self, va: u64) -> (r: bool)
        requires
            self.wf(),
            locatable(va),
        ensures
            r == !self.entry(level2_index(va), level3_index(va)).valid,
    {
        !self.is_valid(va)
    }

    /// Sets the entry a virtual address falls in.
    pub fn set_entry(&mut self, va: u64, entry: L3Entry)
        requires
            old(self).wf(),
            locatable(va),
        ensures
            final(self).wf(),
            final(self).entry(level2_index(va), level3_index(va)) == entry,
            forall|l2: int, l3: int|
                0 <= l2 < L3_TABLES && 0 <= l3 < L3_ENTRIES && (l2 != level2_index(va) || l3
                    != level3_index(va)) ==> #[trigger] final(self).entry(l2, l3) == old(self).entry(
                    l2,
                    l3,
                ),
    {
        let slot = PageTable::slot(va);
        self.entries.set(slot, entry);
        proof {
            assert forall|l2: int, l3: int|
                0 <= l2 < L3_TABLES && 0 <= l3 < L3_ENTRIES && (l2 != level2_index(va) || l3
                    != level3_index(va)) implies #[trigger] self.entry(l2, l3) == old(self).entry(
                l2,
                l3,
            ) by {
                assert(l2 * L3_ENTRIES + l3 != level2_index(va) * L3_ENTRIES + level3_index(va))
                    by (nonlinear_arith)
                    requires
                        0 <= l3 < L3_ENTRIES,
                        0 <= level3_index(va) < L3_ENTRIES,
                        l2 != level2_index(va) || l3 != level3_index(va),
                ;
            }
        }
    }

    /// The physical address a virtual address maps to, when the page it
    /// falls in is mapped.
    pub fn translate(&self, va: u64) -> (r: Option<u64>)
        requires
            self.wf(),
            level2_index(va) < L3_TABLES,
        ensures
            ({
                let e = self.entry(level2_index(va), level3_index(va));
                &&& e.valid ==> r == Some((e.page_number as int * PAGE_SIZE + va % PAGE_SIZE) as u64)
                &&& !e.valid ==> r is None
            }),
    {
        assert(va & 0xffffu64 == va % 0x10000) by (bit_vector);
        assert(va & !0xffffu64 == va - va % 0x10000) by (bit_vector);
        let aligned = va & !0xffff;
        proof {
            assert(((va & !0xffffu64) / 0x2000_0000u64) % 8192u64 == (va / 0x2000_0000u64) % 8192u64)
                by (bit_vector);
            assert(((va & !0xffffu64) / 0x10000u64) % 8192u64 == (va / 0x10000u64) % 8192u64)
                by (bit_vector);
            assert(level2_index(aligned) == level2_index(va));
            assert(level3_index(aligned) == level3_index(va));
            assert((va & !0xffffu64) % 0x10000u64 == 0) by (bit_vector);
        }
        let entry = self.get_entry(aligned);
        if entry.is_valid() {
            let offset = va & 0xffff;
            Some(entry.address() + offset)
        } else {
            None
        }
    }
}

} // verus!
