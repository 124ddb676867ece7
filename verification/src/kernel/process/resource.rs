use vstd::prelude::*;

use crate::kernel::error::OsError;

verus! {

/// The identifier of an open resource (a file descriptor).
#[derive(Clone, Copy, PartialEq, Eq, Debug, Structural)]
pub struct ResourceId(pub u64);

impl From<u64> for ResourceId {
    fn from(value: u64) -> (r: ResourceId) {
        ResourceId(value)
    }
}

impl vstd::std_specs::convert::FromSpecImpl<u64> for ResourceId {
    open spec fn obeys_from_spec() -> bool {
        true
    }

    open spec fn from_spec(v: u64) -> ResourceId {
        ResourceId(v)
    }
}

impl From<ResourceId> for u64 {
    fn from(val: ResourceId) -> (r: u64) {
        val.0
    }
}

impl vstd::std_specs::convert::FromSpecImpl<ResourceId> for u64 {
    open spec fn obeys_from_spec() -> bool {
        true
    }

    open spec fn from_spec(v: ResourceId) -> u64 {
        v.0
    }
}

/// An open resource and its identifier.
pub struct ResourceEntry<R> {
    pub id: ResourceId,
    pub resource: R,
}

/// A process's open resources, in table order.
pub struct ResourceList<R> {
    list: Vec<ResourceEntry<R>>,
}

/// The identifiers of a table, in order.
pub open spec fn ids_of<R>(list: Seq<ResourceEntry<R>>) -> Seq<u64> {
    Seq::new(list.len(), |i: int| list[i].id.0)
}

/// The first position, from `i` on, whose identifier differs from the
/// position; `ids.len()` when there is none.
pub open spec fn first_gap_from(ids: Seq<u64>, i: int) -> int
    decreases ids.len() - i,
{
    if i < 0 || i >= ids.len() {
        ids.len() as int
    } else if ids[i] != i {
        i
    } else {
        first_gap_from(ids, i + 1)
    }
}

/// Where `insert` puts a new resource (and so its identifier): the first
/// position whose identifier differs from the position, or position 0 when
/// every identifier equals its position.
pub open spec fn insert_slot(ids: Seq<u64>) -> int {
    let g = first_gap_from(ids, 0);
    if g < ids.len() {
        g
    } else {
        0
    }
}

/// The first position, from `i` on, whose identifier is at most the
/// position; `ids.len()` when there is none.
pub open spec fn first_at_most_from(ids: Seq<u64>, i: int) -> int
    decreases ids.len() - i,
{
    if i < 0 || i >= ids.len() {
        ids.len() as int
    } else if ids[i] <= i {
        i
    } else {
        first_at_most_from(ids, i + 1)
    }
}

/// The first position, from `i` on, holding identifier `id`; `ids.len()`
/// when there is none.
pub open spec fn position_from(ids: Seq<u64>, id: u64, i: int) -> int
    decreases ids.len() - i,
{
    if i < 0 || i >= ids.len() {
        ids.len() as int
    } else if ids[i] == id {
        i
    } else {
        position_from(ids, id, i + 1)
    }
}

/// The number of leading entries for which a duplicate was made.
pub open spec fn duplicated_prefix<R>(duplicates: Seq<Option<R>>, i: int) -> int
    decreases duplicates.len() - i,
{
    if i < 0 || i >= duplicates.len() {
        duplicates.len() as int
    } else if duplicates[i] is None {
        i
    } else {
        duplicated_prefix(duplicates, i + 1)
    }
}

pub proof fn lemma_position_from(ids: Seq<u64>, id: u64, i: int)
    requires
        0 <= i <= ids.len(),
    ensures
        i <= position_from(ids, id, i) <= ids.len(),
        position_from(ids, id, i) < ids.len() ==> ids[position_from(ids, id, i)] == id,
        forall|j: int| i <= j < position_from(ids, id, i) ==> ids[j] != id,
    decreases ids.len() - i,
{
    if i < ids.len() && ids[i] != id {
        lemma_position_from(ids, id, i + 1);
    }
}

/// The number of leading `Some`s.
fn leading_some<R>(v: &Vec<Option<R>>) -> (r: usize)
    ensures
        r == duplicated_prefix(v@, 0),
        r <= v@.len(),
        forall|j: int| 0 <= j < r ==> (#[trigger] v@[j]) is Some,
{
    let len = v.len();
    let mut i: usize = 0;
    while i < len
        invariant
            len == v@.len(),
            i <= len,
            duplicated_prefix(v@, 0) == duplicated_prefix(v@, i as int),
            forall|j: int| 0 <= j < i ==> (#[trigger] v@[j]) is Some,
        decreases len - i,
    {
        if v[i].is_none() {
            return i;
        }
        i += 1;
    }
    len
}

impl<R> ResourceList<R> {
    /// The entries, in table order.
    pub closed spec fn entries(&self) -> Seq<ResourceEntry<R>> {
        self.list@
    }

    /// The identifiers, in table order.
    pub open spec fn ids(&self) -> Seq<u64> {
        ids_of(self.entries())
    }

    /// An empty table.
    pub fn new() -> (r: Self)
        ensures
            r.entries().len() == 0,
    {
        ResourceList { list: Vec::new() }
    }

    /// The number of entries.
    pub fn len(&self) -> (r: usize)
        ensures
            r == self.entries().len(),
    {
        self.list.len()
    }

    /// The identifier of the entry at `index`.
    pub fn id_at(&self, index: usize) -> (r: ResourceId)
        requires
            index < self.entries().len(),
        ensures
            r == self.entries()[index as int].id,
    {
        self.list[index].id
    }

    /// Adds `resource` at the first position whose identifier differs from
    /// the position (position 0 when there is none), under the identifier
    /// equal to that position.
    pub fn insert(&mut self, resource: R) -> (id: ResourceId)
        ensures
            id.0 == insert_slot(old(self).ids()),
            final(self).entries() == old(self).entries().insert(
                insert_slot(old(self).ids()),
                ResourceEntry { id, resource },
            ),
    {
        let gap = self.first_gap();
        let index = if gap < self.list.len() {
            gap
        } else {
            0
        };
        let id = ResourceId::from(index as u64);
        self.list.insert(index, ResourceEntry { id, resource });
        id
    }

    /// Adds `resource` under identifier `id`: at the end when no position's
    /// identifier is at most the position; otherwise at the first such
    /// position, unless the entry there already has identifier `id`, which
    /// is an error (and leaves the table unchanged).
    pub fn insert_with_id(&mut self, id: ResourceId, resource: R) -> (r: Result<(), OsError>)
        ensures
            ({
                let ids = old(self).ids();
                let idx = first_at_most_from(ids, 0);
                &&& idx >= ids.len() ==> r is Ok && final(self).entries() == old(self).entries().push(
                    ResourceEntry { id, resource },
                )
                &&& idx < ids.len() && ids[idx] == id.0 ==> r == Err::<(), OsError>(
                    OsError::UnknownResourceId,
                ) && final(self).entries() == old(self).entries()
                &&& idx < ids.len() && ids[idx] != id.0 ==> r is Ok && final(self).entries()
                    == old(self).entries().insert(idx, ResourceEntry { id, resource })
            }),
    {
        let ghost ids = self.ids();
        let len = self.list.len();
        let mut i: usize = 0;
        while i < len
            invariant
                ids == self.ids(),
                self.entries() == old(self).entries(),
                len == ids.len(),
                i <= len,
                first_at_most_from(ids, 0) == first_at_most_from(ids, i as int),
            decreases len - i,
        {
            if self.list[i].id.0 <= i as u64 {
                if self.list[i].id == id {
                    return Err(OsError::UnknownResourceId);
                }
                self.list.insert(i, ResourceEntry { id, resource });
                return Ok(());
            }
            i += 1;
        }
        self.list.push(ResourceEntry { id, resource });
        Ok(())
    }

    /// Removes the first entry with identifier `id`; an error when there is
    /// none.
    pub fn remove(&mut self, id: ResourceId) -> (r: Result<(), OsError>)
        ensures
            ({
                let p = position_from(old(self).ids(), id.0, 0);
                &&& p < old(self).ids().len() ==> r is Ok && final(self).entries() == old(
                    self,
                ).entries().remove(p)
                &&& p >= old(self).ids().len() ==> r == Err::<(), OsError>(
                    OsError::UnknownResourceId,
                ) && final(self).entries() == old(self).entries()
            }),
    {
        match self.position(id) {
            None => Err(OsError::UnknownResourceId),
            Some(idx) => {
                self.list.remove(idx);
                Ok(())
            },
        }
    }

    /// The first position whose identifier differs from the position.
    fn first_gap(&self) -> (r: usize)
        ensures
            r == first_gap_from(self.ids(), 0),
            r <= self.ids().len(),
    {
        let ghost ids = self.ids();
        let len = self.list.len();
        let mut i: usize = 0;
        while i < len
            invariant
                ids == self.ids(),
                len == ids.len(),
                i <= len,
                first_gap_from(ids, 0) == first_gap_from(ids, i as int),
            decreases len - i,
        {
            if self.list[i].id.0 != i as u64 {
                return i;
            }
            i += 1;
        }
        len
    }

    /// The position of the first entry with identifier `id`.
    fn position(&self, id: ResourceId) -> (r: Option<usize>)
        ensures
            r matches Some(i) ==> i == position_from(self.ids(), id.0, 0) && i < self.ids().len(),
            r is None ==> position_from(self.ids(), id.0, 0) >= self.ids().len(),
    {
        let ghost ids = self.ids();
        let len = self.list.len();
        let mut i: usize = 0;
        while i < len
            invariant
                ids == self.ids(),
                len == ids.len(),
                i <= len,
                position_from(ids, id.0, 0) == position_from(ids, id.0, i as int),
            decreases len - i,
        {
            if self.list[i].id == id {
                return Some(i);
            }
            i += 1;
        }
        None
    }

    /// The resource of the first entry with identifier `id`, to be used in
    /// place; an error when there is none.
    pub fn get(&mut self, id: ResourceId) -> (r: Result<&mut R, OsError>)
        ensures
            ({
                let p = position_from(old(self).ids(), id.0, 0);
                &&& p < old(self).ids().len() ==> r is Ok && *r->Ok_0 == old(self).entries()[p].resource
                    && final(self).entries() == old(self).entries().update(
                    p,
                    ResourceEntry { id: old(self).entries()[p].id, resource: *final(r->Ok_0) },
                )
                &&& p >= old(self).ids().len() ==> r == Err::<&mut R, OsError>(OsError::UnknownResourceId)
                    && final(self).entries() == old(self).entries()
            }),
    {
        match self.position(id) {
            None => Err(OsError::UnknownResourceId),
            Some(idx) => Ok(&mut self.list[idx].resource),
        }
    }

    /// A copy of the table made from the duplicates of its resources (one
    /// per entry, `None` where duplicating failed): the entries up to the
    /// first failed duplicate, each under its identifier.
    pub fn duplicate(&self, duplicates: Vec<Option<R>>) -> (r: ResourceList<R>)
        requires
            duplicates@.len() == self.entries().len(),
        ensures
            r.entries().len() == duplicated_prefix(duplicates@, 0),
            forall|i: int|
                0 <= i < r.entries().len() ==> (#[trigger] r.entries()[i]).id == self.entries()[i].id
                    && duplicates@[i] == Some(r.entries()[i].resource),
    {
        let mut duplicates = duplicates;
        let ghost d = duplicates@;
        let count = leading_some(&duplicates);
        let mut list: Vec<ResourceEntry<R>> = Vec::new();
        let mut i: usize = 0;
        while i < count
            invariant
                d.len() == self.entries().len(),
                duplicates@.len() == d.len(),
                count == duplicated_prefix(d, 0),
                count <= d.len(),
                forall|j: int| 0 <= j < count ==> (#[trigger] d[j]) is Some,
                forall|j: int| i <= j < d.len() ==> #[trigger] duplicates@[j] == d[j],
                i <= count,
                list@.len() == i,
                forall|j: int|
                    0 <= j < i ==> (#[trigger] list@[j]).id == self.entries()[j].id && d[j] == Some(
                        list@[j].resource,
                    ),
            decreases count - i,
        {
            let mut slot: Option<R> = None;
            duplicates.set_and_swap(i, &mut slot);
            if let Some(resource) = slot {
                list.push(ResourceEntry { id: self.list[i].id, resource });
            }
            i += 1;
        }
        ResourceList { list }
    }
}

} // verus!

verus! {

proof fn lemma_first_gap_from(ids: Seq<u64>, i: int)
    requires
        0 <= i <= ids.len(),
    ensures
        i <= first_gap_from(ids, i) <= ids.len(),
        forall|j: int| i <= j < first_gap_from(ids, i) ==> ids[j] == j,
    decreases ids.len() - i,
{
    if i < ids.len() && ids[i] == i {
        lemma_first_gap_from(ids, i + 1);
    }
}

/// What is inserted can be found again: after an entry is inserted at the
/// table's insertion slot under the slot's number, the first entry with
/// that identifier is the one inserted.
pub proof fn lemma_insert_then_find<R>(entries: Seq<ResourceEntry<R>>, resource: R)
    requires
        entries.len() < u64::MAX,
    ensures
        ({
            let k = insert_slot(ids_of(entries));
            let after = entries.insert(k, ResourceEntry { id: ResourceId(k as u64), resource });
            &&& position_from(ids_of(after), k as u64, 0) == k
            &&& after[k].resource == resource
        }),
{
    let ids = ids_of(entries);
    lemma_first_gap_from(ids, 0);
    let k = insert_slot(ids);
    let after = entries.insert(k, ResourceEntry { id: ResourceId(k as u64), resource });
    entries.insert_ensures(k, ResourceEntry { id: ResourceId(k as u64), resource });
    let ids2 = ids_of(after);
    lemma_position_from(ids2, k as u64, 0);
    assert forall|j: int| 0 <= j < k implies ids2[j] != k as u64 by {
        assert(j < first_gap_from(ids, 0));
        assert(ids[j] == j);
        assert(after[j] == entries[j]);
        assert(ids2[j] == after[j].id.0);
        assert(ids[j] == entries[j].id.0);
    }
    assert(ids2[k] == k as u64);
}

} // verus!
