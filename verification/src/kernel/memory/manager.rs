use vstd::prelude::*;

verus! {

/// The virtual memory manager's bookkeeping: how many cores have set up
/// their MMU.
pub struct VirtualMemoryManager {
    ready_core_count: usize,
}

impl VirtualMemoryManager {
    pub closed spec fn ready_core_count(&self) -> usize {
        self.ready_core_count
    }

    /// A manager before initialization: no core is ready.
    pub fn uninitialized() -> (r: Self)
        ensures
            r.ready_core_count() == 0,
    {
        Self { ready_core_count: 0 }
    }

    /// Initializes the manager: there is nothing to set up yet, and a
    /// shared reference leaves the manager as it was.
    pub fn initialize(&self) {
    }
}

} // verus!
