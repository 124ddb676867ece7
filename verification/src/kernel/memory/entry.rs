use vstd::prelude::*;

use crate::kernel::error::OsError;

verus! {

/// Access permission values of a page (the AP field).
pub const KERN_RW: u8 = 0b00;
pub const USER_RW: u8 = 0b01;
pub const KERN_RO: u8 = 0b10;
pub const USER_RO: u8 = 0b11;

/// Bits of the page offset: pages are 64 KiB.
pub const PAGE_ALIGN: u64 = 16;

/// The permissions of a user page.
#[derive(Debug, PartialEq, Eq, Structural, Clone, Copy)]
pub enum PagePermissions {
    RW,
    RO,
    RWX,
    RX,
}

/// A level-3 page-table entry, field by field: whether it is valid, the
/// physical page number it maps (the ADDR field), its access permissions,
/// whether execution is forbidden, and whether the page is shared
/// copy-on-write.
#[derive(Debug, PartialEq, Eq, Structural, Clone, Copy)]
pub struct L3Entry {
    pub valid: bool,
    pub page_number: u32,
    pub access: u8,
    pub execute_never: bool,
    pub copy_on_write: bool,
}

/// Whether an access value belongs to a user page (and so names one of the
/// four user permissions).
pub open spec fn is_user_access(access: u8) -> bool {
    access == USER_RW || access == USER_RO
}

/// The access value and execute-never flag of each permission.
pub open spec fn access_of(p: PagePermissions) -> u8 {
    match p {
        PagePermissions::RW | PagePermissions::RWX => USER_RW,
        PagePermissions::RO | PagePermissions::RX => USER_RO,
    }
}

pub open spec fn execute_never_of(p: PagePermissions) -> bool {
    match p {
        PagePermissions::RW | PagePermissions::RO => true,
        PagePermissions::RWX | PagePermissions::RX => false,
    }
}

impl L3Entry {
    pub open spec fn valid(self) -> bool {
        self.valid
    }

    pub open spec fn page_number(self) -> u32 {
        self.page_number
    }

    pub open spec fn access(self) -> u8 {
        self.access
    }

    pub open spec fn execute_never(self) -> bool {
        self.execute_never
    }

    pub open spec fn copy_on_write(self) -> bool {
        self.copy_on_write
    }

    /// The permissions an entry with user access stands for.
    pub open spec fn permissions_spec(self) -> PagePermissions {
        if self.access() == USER_RW {
            if self.execute_never() {
                PagePermissions::RW
            } else {
                PagePermissions::RWX
            }
        } else if self.execute_never() {
            PagePermissions::RO
        } else {
            PagePermissions::RX
        }
    }

    /// An empty (invalid) entry.
    pub fn empty() -> (r: Self)
        ensures
            !r.valid(),
            r.page_number() == 0,
            r.access() == KERN_RW,
            !r.execute_never(),
            !r.copy_on_write(),
    {
        L3Entry { valid: false, page_number: 0, access: KERN_RW, execute_never: false, copy_on_write: false }
    }

    /// A valid entry mapping physical page `page_number`, with the given
    /// permissions, owned (not copy-on-write).
    pub fn new(page_number: u32, permissions: PagePermissions) -> (r: Self)
        ensures
            r.valid(),
            r.page_number() == page_number,
            r.access() == access_of(permissions),
            r.execute_never() == execute_never_of(permissions),
            !r.copy_on_write(),
    {
        let mut entry = L3Entry {
            valid: true,
            page_number,
            access: KERN_RW,
            execute_never: false,
            copy_on_write: false,
        };
        entry.set_permissions(permissions);
        entry
    }

    /// Returns `true` if the entry is valid and `false` otherwise.
    pub fn is_valid(&self) -> (r: bool)
        ensures
            r == self.valid(),
    {
        self.valid
    }

    /// The physical address of the mapped page.
    pub fn address(&self) -> (r: u64)
        ensures
            r == self.page_number() as int * 0x10000,
    {
        let n = self.page_number as u64;
        assert(n << 16u64 == n * 0x10000) by (bit_vector)
            requires
                n <= 0xffff_ffff,
        ;
        n << PAGE_ALIGN
    }

    /// Points the entry at physical page `page_number`.
    pub fn set_page_number(&mut self, page_number: u32)
        ensures
            *final(self) == (L3Entry { page_number, ..*old(self) }),
    {
        self.page_number = page_number;
    }

    /// The permissions of a user page.
    pub fn permissions(&self) -> (r: PagePermissions)
        requires
            is_user_access(self.access()),
        ensures
            r == self.permissions_spec(),
    {
        if self.access == USER_RW {
            if self.execute_never {
                PagePermissions::RW
            } else {
                PagePermissions::RWX
            }
        } else if self.execute_never {
            PagePermissions::RO
        } else {
            PagePermissions::RX
        }
    }

    /// Gives the page the user permissions `permissions`.
    pub fn set_permissions(&mut self, permissions: PagePermissions)
        ensures
            *final(self) == (L3Entry {
                access: access_of(permissions),
                execute_never: execute_never_of(permissions),
                ..*old(self)
            }),
            final(self).permissions_spec() == permissions,
    {
        match permissions {
            PagePermissions::RW | PagePermissions::RWX => {
                self.access = USER_RW;
            },
            PagePermissions::RO | PagePermissions::RX => {
                self.access = USER_RO;
            },
        }
        match permissions {
            PagePermissions::RWX | PagePermissions::RX => {
                self.execute_never = false;
            },
            PagePermissions::RW | PagePermissions::RO => {
                self.execute_never = true;
            },
        }
    }

    /// Marks the page as shared copy-on-write, or as owned.
    pub fn set_cow(&mut self, cow: bool)
        ensures
            *final(self) == (L3Entry { copy_on_write: cow, ..*old(self) }),
    {
        self.copy_on_write = cow;
    }

    /// Whether the page is shared copy-on-write.
    pub fn is_cow(&self) -> (r: bool)
        ensures
            r == self.copy_on_write(),
    {
        self.copy_on_write
    }
}

/// The permission a page keeps while it is shared: writing is taken away.
pub open spec fn shared_permissions(p: PagePermissions) -> PagePermissions {
    match p {
        PagePermissions::RW => PagePermissions::RO,
        PagePermissions::RWX => PagePermissions::RX,
        other => other,
    }
}

/// An entry once its page is shared copy-on-write: writing is taken away
/// and it is marked copy-on-write.
pub open spec fn shared_entry(e: L3Entry) -> L3Entry {
    let p = shared_permissions(e.permissions_spec());
    L3Entry { access: access_of(p), execute_never: execute_never_of(p), copy_on_write: true, ..e }
}

/// Sharing never grants write access: a shared page is read-only, keeps
/// whether it may be executed, and a page that was read-only already keeps
/// its permissions.
pub proof fn lemma_sharing_takes_write_away(p: PagePermissions)
    ensures
        access_of(shared_permissions(p)) == USER_RO,
        execute_never_of(shared_permissions(p)) == execute_never_of(p),
        shared_permissions(p) == PagePermissions::RO || shared_permissions(p) == PagePermissions::RX,
        (p == PagePermissions::RO || p == PagePermissions::RX) ==> shared_permissions(p) == p,
        shared_permissions(shared_permissions(p)) == shared_permissions(p),
{
}

/// The permission a page gets back when it stops being shared: writing is
/// allowed again.
pub open spec fn owned_permissions(p: PagePermissions) -> PagePermissions {
    match p {
        PagePermissions::RW | PagePermissions::RO => PagePermissions::RW,
        PagePermissions::RWX | PagePermissions::RX => PagePermissions::RWX,
    }
}

/// A page that stops being shared is writable again, with the execute
/// permission it had before it was shared.
pub proof fn lemma_owning_restores_write(p: PagePermissions)
    ensures
        access_of(owned_permissions(shared_permissions(p))) == USER_RW,
        execute_never_of(owned_permissions(shared_permissions(p))) == execute_never_of(p),
        (p == PagePermissions::RW || p == PagePermissions::RWX) ==> owned_permissions(shared_permissions(p)) == p,
{
}

/// Shares the page of `entry` copy-on-write with another address space:
/// writing is taken away and the entry is marked copy-on-write. Returns the
/// entry for the other address space (a copy of the updated entry) and
/// whether the page was not shared before (the frame is then pinned once
/// more for the start mapping, besides the pin for the new one).
pub fn cow(entry: &mut L3Entry) -> (r: (L3Entry, bool))
    requires
        is_user_access(old(entry).access()),
    ensures
        *final(entry) == shared_entry(*old(entry)),
        final(entry).permissions_spec() == shared_permissions(old(entry).permissions_spec()),
        final(entry).access() == USER_RO,
        final(entry).execute_never() == old(entry).execute_never(),
        final(entry).copy_on_write(),
        final(entry).valid() == old(entry).valid(),
        final(entry).page_number() == old(entry).page_number(),
        r.0 == *final(entry),
        r.1 == !old(entry).copy_on_write(),
{
    match entry.permissions() {
        PagePermissions::RW => {
            entry.set_permissions(PagePermissions::RO);
        },
        PagePermissions::RWX => {
            entry.set_permissions(PagePermissions::RX);
        },
        _ => {},
    }
    let newly_shared = !entry.is_cow();
    if newly_shared {
        entry.set_cow(true);
    }
    (*entry, newly_shared)
}

/// How a write to a copy-on-write page is resolved: the entry that maps the
/// page from now on, and whether the page must first be copied to a fresh
/// page (whose number then replaces the entry's page number).
#[derive(Debug, PartialEq, Eq, Structural, Clone, Copy)]
pub struct CowResolution {
    pub entry: L3Entry,
    pub copy_page: bool,
}

/// Resolves a write fault on `entry`, whose frame is pinned `pin_count`
/// times: the page becomes writable again and owned; it is copied when it
/// is still pinned by another mapping. An entry that is not a valid
/// copy-on-write entry is an error.
pub fn remove_cow(entry: L3Entry, pin_count: usize) -> (r: Result<CowResolution, OsError>)
    requires
        entry.valid() && entry.copy_on_write() ==> is_user_access(entry.access()),
    ensures
        !entry.valid() || !entry.copy_on_write() ==> r == Err::<CowResolution, OsError>(
            OsError::Unknown,
        ),
        entry.valid() && entry.copy_on_write() ==> r is Ok && r->Ok_0.copy_page == (pin_count > 1)
            && r->Ok_0.entry.permissions_spec() == owned_permissions(entry.permissions_spec())
            && !r->Ok_0.entry.copy_on_write() && r->Ok_0.entry.valid() && r->Ok_0.entry.page_number()
            == entry.page_number(),
{
    if !entry.is_valid() || !entry.is_cow() {
        return Err(OsError::Unknown);
    }
    let permissions = match entry.permissions() {
        PagePermissions::RW => PagePermissions::RW,
        PagePermissions::RO => PagePermissions::RW,
        PagePermissions::RWX => PagePermissions::RWX,
        PagePermissions::RX => PagePermissions::RWX,
    };
    let mut l3_entry = entry;
    l3_entry.set_permissions(permissions);
    l3_entry.set_cow(false);
    Ok(CowResolution { entry: l3_entry, copy_page: pin_count > 1 })
}

} // verus!
