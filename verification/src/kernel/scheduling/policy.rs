use vstd::prelude::*;

use crate::kernel::process::ProcessId;
use crate::kernel::scheduling::scheduler::{SwitchCondition, SwitchTrigger};

verus! {

/// Whether a process was switched out to wait for an event.
pub type Waiting = bool;

/// What the scheduler tells a policy about a process. Durations are
/// counted in nanoseconds.
pub enum PolicyInformation {
    /// The process was switched out after running for the given time, by
    /// the given trigger, and is now waiting (or not).
    ScheduledOut(u128, SwitchTrigger, Waiting),
    /// The event the process waited for has arrived.
    DoneWaiting,
    /// The process was switched in.
    StartRunning,
}

/// A policy's choice of the next process to run: the process, how long it
/// may run (in nanoseconds) and on which triggers it may be switched out.
pub struct PolicyAdvice {
    pub process_id: ProcessId,
    pub runtime: Option<u128>,
    pub stop_condition: SwitchCondition,
}

/// A scheduling policy: it is told about processes as they come, go, run
/// and wait, and advises which process to run next.
pub trait Policy {
    /// The policy's internal invariant.
    spec fn wf(&self) -> bool;

    /// Whether the policy can take `information` about `process_id` in its
    /// current state (some information is only valid for processes the
    /// policy is tracking in a particular way).
    spec fn can_inform(&self, process_id: ProcessId, information: PolicyInformation) -> bool;

    /// Whether the policy can take a new process `process_id` (it must not
    /// be holding it already).
    spec fn can_insert(&self, process_id: ProcessId) -> bool;

    fn insert(&mut self, process_id: ProcessId)
        requires
            old(self).wf(),
            old(self).can_insert(process_id),
        ensures
            final(self).wf(),
    ;

    fn remove(&mut self, process_id: ProcessId)
        requires
            old(self).wf(),
        ensures
            final(self).wf(),
    ;

    fn inform(&mut self, process_id: ProcessId, information: &PolicyInformation)
        requires
            old(self).wf(),
            old(self).can_inform(process_id, *information),
        ensures
            final(self).wf(),
    ;

    /// Whether the policy can give advice in its current state.
    spec fn can_advise(&self) -> bool;

    fn advise(&mut self) -> (advice: Option<PolicyAdvice>)
        requires
            old(self).wf(),
            old(self).can_advise(),
        ensures
            final(self).wf(),
    ;
}

/// The index of the first occurrence of `pid` in `q` from `i` on, or the
/// length of `q` when there is none.
pub open spec fn index_of_from(q: Seq<ProcessId>, pid: ProcessId, i: int) -> int
    decreases q.len() - i,
{
    if i < 0 || i >= q.len() {
        q.len() as int
    } else if q[i] == pid {
        i
    } else {
        index_of_from(q, pid, i + 1)
    }
}

/// The index of the first occurrence of `pid` in `q`, or its length.
pub open spec fn index_of(q: Seq<ProcessId>, pid: ProcessId) -> int {
    index_of_from(q, pid, 0)
}

/// `q` with the first occurrence of `pid` moved to the back.
pub open spec fn requeue(q: Seq<ProcessId>, pid: ProcessId) -> Seq<ProcessId> {
    let i = index_of(q, pid);
    if i < q.len() {
        q.remove(i).push(pid)
    } else {
        q
    }
}

pub proof fn lemma_index_of_from(q: Seq<ProcessId>, pid: ProcessId, i: int)
    requires
        0 <= i <= q.len(),
    ensures
        i <= index_of_from(q, pid, i) <= q.len(),
        index_of_from(q, pid, i) < q.len() ==> q[index_of_from(q, pid, i)] == pid,
        forall|j: int| i <= j < index_of_from(q, pid, i) ==> q[j] != pid,
    decreases q.len() - i,
{
    if i < q.len() && q[i] != pid {
        lemma_index_of_from(q, pid, i + 1);
    }
}

/// The signal that a stop condition holds only the triggers given.
pub open spec fn condition_is(c: SwitchCondition, triggers: Set<SwitchTrigger>) -> bool {
    forall|t: SwitchTrigger| c.accepts(t) <==> triggers.contains(t)
}

} // verus!
