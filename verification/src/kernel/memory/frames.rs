use vstd::prelude::*;

use std::collections::BTreeMap;

verus! {

broadcast use {vstd::std_specs::btree::group_btree_axioms, vstd::laws_cmp::group_laws_cmp};

/// How many mappings pin each physical frame (frames shared copy-on-write
/// are pinned once per mapping). Frames that are not pinned are absent.
pub struct FrameReferenceCounts {
    counts: BTreeMap<u64, usize>,
}

impl FrameReferenceCounts {
    /// The pin count of each pinned frame, by physical address.
    pub closed spec fn counts(&self) -> Map<u64, usize> {
        self.counts@
    }

    /// Every recorded count is positive.
    pub open spec fn wf(&self) -> bool {
        forall|a: u64| #[trigger] self.counts().contains_key(a) ==> self.counts()[a] >= 1
    }

    /// The pin count of a frame: 0 when it is not pinned.
    pub open spec fn pin_count(&self, physical_address: u64) -> nat {
        if self.counts().contains_key(physical_address) {
            self.counts()[physical_address] as nat
        } else {
            0
        }
    }

    /// No frame is pinned.
    pub fn new() -> (r: Self)
        ensures
            r.counts() == Map::<u64, usize>::empty(),
            r.wf(),
    {
        FrameReferenceCounts { counts: BTreeMap::new() }
    }

    /// Pins a frame once more.
    pub fn pin_frame(&mut self, physical_address: u64)
        requires
            old(self).wf(),
            old(self).pin_count(physical_address) < usize::MAX,
        ensures
            final(self).wf(),
            final(self).counts() == old(self).counts().insert(
                physical_address,
                (old(self).pin_count(physical_address) + 1) as usize,
            ),
    {
        let count = match self.counts.get(&physical_address) {
            Some(c) => *c,
            None => 0,
        };
        self.counts.insert(physical_address, count + 1);
    }

    /// Unpins a frame once; returns whether that was its last pin (the frame
    /// is then forgotten). Unpinning a frame that is not pinned changes
    /// nothing and returns `false`.
    pub fn unpin_frame(&mut self, physical_address: u64) -> (last: bool)
        requires
            old(self).wf(),
        ensures
            final(self).wf(),
            last == (old(self).pin_count(physical_address) == 1),
            old(self).pin_count(physical_address) == 1 ==> final(self).counts() == old(
                self,
            ).counts().remove(physical_address),
            old(self).pin_count(physical_address) > 1 ==> final(self).counts() == old(
                self,
            ).counts().insert(
                physical_address,
                (old(self).pin_count(physical_address) - 1) as usize,
            ),
            old(self).pin_count(physical_address) == 0 ==> final(self).counts() == old(
                self,
            ).counts(),
    {
        match self.counts.get(&physical_address) {
            Some(c) => {
                let count = *c;
                if count == 1 {
                    self.counts.remove(&physical_address);
                    true
                } else {
                    self.counts.insert(physical_address, count - 1);
                    false
                }
            },
            None => false,
        }
    }

    /// The pin count of a frame (0 when it is not pinned).
    pub fn get_frame_pin_count(&self, physical_address: u64) -> (r: usize)
        ensures
            r == self.pin_count(physical_address),
    {
        match self.counts.get(&physical_address) {
            Some(c) => *c,
            None => 0,
        }
    }
}

/// Pinning a frame and then unpinning it leaves every pin count as it was.
pub proof fn lemma_pin_then_unpin(
    before: FrameReferenceCounts,
    pinned: FrameReferenceCounts,
    after: FrameReferenceCounts,
    physical_address: u64,
)
    requires
        before.wf(),
        before.pin_count(physical_address) < usize::MAX,
        pinned.counts() == before.counts().insert(
            physical_address,
            (before.pin_count(physical_address) + 1) as usize,
        ),
        pinned.pin_count(physical_address) == 1 ==> after.counts() == pinned.counts().remove(
            physical_address,
        ),
        pinned.pin_count(physical_address) > 1 ==> after.counts() == pinned.counts().insert(
            physical_address,
            (pinned.pin_count(physical_address) - 1) as usize,
        ),
    ensures
        after.counts() == before.counts(),
{
    if before.counts().contains_key(physical_address) {
        assert(after.counts() =~= before.counts());
    } else {
        assert(after.counts() =~= before.counts());
    }
}

} // verus!
