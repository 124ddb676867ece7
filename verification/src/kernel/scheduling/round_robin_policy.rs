use vstd::prelude::*;

use std::collections::{BTreeSet, VecDeque};

use crate::kernel::process::ProcessId;
use crate::kernel::scheduling::policy::{
    condition_is, index_of, index_of_from, lemma_index_of_from, requeue, Policy, PolicyAdvice,
    PolicyInformation,
};
use crate::kernel::scheduling::global::{distinct_ids, lemma_index_of_contains, lemma_remove_id, lemma_requeue_ids};
use crate::kernel::scheduling::scheduler::{SwitchCondition, SwitchTrigger};

verus! {

broadcast use {
    vstd::std_specs::btree::group_btree_axioms,
    vstd::laws_cmp::group_laws_cmp,
    vstd::std_specs::vecdeque::group_vec_dequeue_axioms,
};

/// A round-robin policy: processes take turns in queue order, each for one
/// quantum, skipping those that wait for an event.
pub struct RoundRobinPolicy {
    quantum: u128,
    queue: VecDeque<ProcessId>,
    waiting: BTreeSet<u64>,
}

/// The first index, from `i` on, of a process in `q` that is not waiting.
pub open spec fn first_ready_from(q: Seq<ProcessId>, waiting: Set<u64>, i: int) -> int
    decreases q.len() - i,
{
    if i < 0 || i >= q.len() {
        q.len() as int
    } else if !waiting.contains(q[i].0) {
        i
    } else {
        first_ready_from(q, waiting, i + 1)
    }
}

/// The queue and waiting set after the policy is told `info` about `pid`.
pub open spec fn round_robin_informed(
    q: Seq<ProcessId>,
    waiting: Set<u64>,
    pid: ProcessId,
    info: PolicyInformation,
) -> (Seq<ProcessId>, Set<u64>) {
    match info {
        PolicyInformation::ScheduledOut(_, _, w) => (
            requeue(q.push(pid), pid),
            if w {
                waiting.insert(pid.0)
            } else {
                waiting
            },
        ),
        PolicyInformation::DoneWaiting => (requeue(q, pid), waiting.remove(pid.0)),
        PolicyInformation::StartRunning => (requeue(q.remove(index_of(q, pid)), pid), waiting),
    }
}

impl RoundRobinPolicy {
    /// The time each process may run at a turn, in nanoseconds.
    pub closed spec fn quantum(&self) -> u128 {
        self.quantum
    }

    /// The turn order, front first.
    pub closed spec fn queue(&self) -> Seq<ProcessId> {
        self.queue@
    }

    /// The ids of the processes that wait for an event.
    pub closed spec fn waiting(&self) -> Set<u64> {
        self.waiting@
    }

    /// A policy with an empty queue that gives each process `quantum`
    /// nanoseconds per turn.
    pub fn new(quantum: u128) -> (r: Self)
        ensures
            r.wf(),
            r.quantum() == quantum,
            r.queue() == Seq::<ProcessId>::empty(),
            r.waiting() == Set::<u64>::empty(),
    {
        Self { quantum, queue: VecDeque::new(), waiting: BTreeSet::new() }
    }

    /// The position of `process_id` in the queue, if it is there.
    fn index_of_process_id(&self, process_id: ProcessId) -> (r: Option<usize>)
        ensures
            r matches Some(i) ==> i == index_of(self.queue(), process_id) && i < self.queue().len(),
            r is None ==> index_of(self.queue(), process_id) == self.queue().len(),
            0 <= index_of(self.queue(), process_id) <= self.queue().len(),
    {
        proof {
            lemma_index_of_from(self.queue(), process_id, 0);
        }
        let len = self.queue.len();
        let mut i: usize = 0;
        while i < len
            invariant
                len == self.queue().len(),
                i <= len,
                index_of(self.queue(), process_id) == index_of_from(self.queue(), process_id, i as int),
            decreases len - i,
        {
            if self.queue[i] == process_id {
                return Some(i);
            }
            i += 1;
        }
        None
    }

    /// Moves the first occurrence of `process_id` to the back of the queue.
    fn requeue(&mut self, process_id: ProcessId)
        ensures
            final(self).queue() == requeue(old(self).queue(), process_id),
            final(self).waiting() == old(self).waiting(),
            final(self).quantum() == old(self).quantum(),
    {
        proof {
            lemma_index_of_from(self.queue(), process_id, 0);
        }
        if let Some(i) = self.index_of_process_id(process_id) {
            self.queue.remove(i);
            self.queue.push_back(process_id);
        }
    }
}

impl Policy for RoundRobinPolicy {
    /// No process is queued twice.
    open spec fn wf(&self) -> bool {
        distinct_ids(self.queue())
    }

    open spec fn can_insert(&self, process_id: ProcessId) -> bool {
        !self.queue().contains(process_id)
    }

    open spec fn can_advise(&self) -> bool {
        true
    }

    open spec fn can_inform(&self, process_id: ProcessId, information: PolicyInformation) -> bool {
        &&& information is StartRunning ==> index_of(self.queue(), process_id) < self.queue().len()
        &&& information is ScheduledOut ==> !self.queue().contains(process_id)
    }

    /// A new process goes to the front of the queue.
    fn insert(&mut self, process_id: ProcessId)
        ensures
            final(self).queue() == seq![process_id] + old(self).queue(),
            final(self).waiting() == old(self).waiting(),
            final(self).quantum() == old(self).quantum(),
    {
        self.queue.push_front(process_id);
        proof {
            let q0 = old(self).queue();
            let q = self.queue();
            assert forall|i: int, j: int| 0 <= i < j < q.len() implies q[i] != q[j] by {
                assert(q[j] == q0[j - 1]);
                if i > 0 {
                    assert(q[i] == q0[i - 1]);
                } else {
                    assert(q0.contains(q0[j - 1]));
                }
            }
        }
    }

    /// A removed process leaves the queue (its first occurrence).
    fn remove(&mut self, process_id: ProcessId)
        ensures
            index_of(old(self).queue(), process_id) < old(self).queue().len() ==> final(self).queue()
                == old(self).queue().remove(index_of(old(self).queue(), process_id)),
            index_of(old(self).queue(), process_id) >= old(self).queue().len() ==> final(self).queue()
                == old(self).queue(),
            final(self).waiting() == old(self).waiting(),
            final(self).quantum() == old(self).quantum(),
    {
        proof {
            lemma_index_of_contains(self.queue(), process_id);
            if index_of(self.queue(), process_id) < self.queue().len() {
                lemma_remove_id(self.queue(), index_of(self.queue(), process_id));
            }
        }
        if let Some(i) = self.index_of_process_id(process_id) {
            self.queue.remove(i);
        }
    }

    /// A process switched out goes to the back of the queue (and into the
    /// waiting set if it waits); one done waiting leaves the waiting set;
    /// one switched in is taken from its place in the queue. In every case
    /// the process's (remaining) first place in the queue then moves to
    /// the back.
    fn inform(&mut self, process_id: ProcessId, information: &PolicyInformation)
        ensures
            (final(self).queue(), final(self).waiting()) == round_robin_informed(
                old(self).queue(),
                old(self).waiting(),
                process_id,
                *information,
            ),
            final(self).quantum() == old(self).quantum(),
    {
        match information {
            PolicyInformation::ScheduledOut(_, _, waiting) => {
                if *waiting {
                    self.waiting.insert(process_id.0);
                }
                let ghost q0 = self.queue();
                self.queue.push_back(process_id);
                proof {
                    let q = self.queue();
                    assert forall|i: int, j: int| 0 <= i < j < q.len() implies q[i] != q[j] by {
                        assert(q[i] == q0[i]);
                        if j < q0.len() {
                            assert(q[j] == q0[j]);
                        } else {
                            assert(q0.contains(q0[i]));
                        }
                    }
                }
            },
            PolicyInformation::DoneWaiting => {
                self.waiting.remove(&process_id.0);
            },
            PolicyInformation::StartRunning => {
                let i = match self.index_of_process_id(process_id) {
                    Some(i) => i,
                    None => return,
                };
                proof {
                    lemma_remove_id(self.queue(), i as int);
                }
                self.queue.remove(i);
            },
        }
        proof {
            lemma_requeue_ids(self.queue(), process_id);
        }
        self.requeue(process_id);
    }

    /// The first process in the queue that is not waiting, for one quantum,
    /// to be switched out only when it yields.
    fn advise(&mut self) -> (advice: Option<PolicyAdvice>)
        ensures
            final(self).queue() == old(self).queue(),
            final(self).waiting() == old(self).waiting(),
            final(self).quantum() == old(self).quantum(),
            ({
                let i = first_ready_from(old(self).queue(), old(self).waiting(), 0);
                &&& i >= old(self).queue().len() ==> advice is None
                &&& i < old(self).queue().len() ==> advice is Some && advice->0.process_id
                    == old(self).queue()[i] && advice->0.runtime == Some(old(self).quantum())
                    && condition_is(advice->0.stop_condition, set![SwitchTrigger::Yield])
            }),
    {
        let len = self.queue.len();
        let mut i: usize = 0;
        while i < len
            invariant
                len == self.queue().len(),
                i <= len,
                first_ready_from(self.queue(), self.waiting(), 0) == first_ready_from(
                    self.queue(),
                    self.waiting(),
                    i as int,
                ),
                distinct_ids(self.queue()),
            decreases len - i,
        {
            let process_id = self.queue[i];
            if !self.waiting.contains(&process_id.0) {
                let stop_condition = SwitchCondition::new().or(SwitchTrigger::Yield);
                return Some(PolicyAdvice { process_id, runtime: Some(self.quantum), stop_condition });
            }
            i += 1;
        }
        None
    }
}

} // verus!
