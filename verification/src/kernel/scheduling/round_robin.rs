//! A round-robin scheduler over a queue of processes: the running process
//! is at the front, a process switched out by force or by the timer goes
//! to the back, and the first ready process runs next.

use vstd::prelude::*;

use std::collections::VecDeque;

use crate::kernel::process::scheduler::{
    index_of_id, index_of_ready, lemma_index_of_id, lemma_index_of_ready, switched_out, with_state,
    QueuedProcess,
};
use crate::kernel::process::state::{ScheduledProcess, State};
use crate::kernel::process::ProcessId;
use crate::kernel::scheduling::scheduler::{SchedulerError, SwitchTrigger};
use crate::kernel::traps::frame::TrapFrame;

verus! {

broadcast use vstd::std_specs::vecdeque::group_vec_dequeue_axioms;

/// The round-robin scheduler.
pub struct RoundRobinScheduler {
    processes: VecDeque<QueuedProcess>,
}

/// How switching in relates the queue before (`s`) and after (`s2`), and
/// the trap frame before and after (`tf`, `tf2`), to the result `r`: the
/// first ready process runs at the front of the queue and its saved
/// registers are restored into the trap frame; `NoRunnableProcess`, and no
/// change, when no process is ready.
pub open spec fn queue_scheduled_in(
    s: Seq<QueuedProcess>,
    s2: Seq<QueuedProcess>,
    tf: TrapFrame,
    tf2: TrapFrame,
    r: Result<ProcessId, SchedulerError>,
) -> bool {
    let j = index_of_ready(s, 0);
    &&& j >= s.len() ==> r == Err::<ProcessId, SchedulerError>(SchedulerError::NoRunnableProcess) && s2 == s
        && tf2 == tf
    &&& j < s.len() ==> r == Ok::<ProcessId, SchedulerError>(s[j].id) && s2 == seq![with_state(s[j], State::Running)]
        + s.remove(j) && tf2 == s[j].process.context
}

/// `p` once process `id`'s wait is over: ready if it is `id` and was
/// waiting, else as it was.
pub open spec fn woken_queued(p: QueuedProcess, id: ProcessId) -> QueuedProcess {
    if p.id == id && p.process.state == State::Waiting {
        QueuedProcess { process: ScheduledProcess { state: State::Ready, ..p.process }, ..p }
    } else {
        p
    }
}

/// Whether `after` is `before` once each process whose id is `parent`
/// records its own id among its dead children.
pub open spec fn notified_queue(before: Seq<QueuedProcess>, after: Seq<QueuedProcess>, parent: Option<ProcessId>) -> bool {
    &&& after.len() == before.len()
    &&& forall|i: int| 0 <= i < before.len() ==> {
        let b = #[trigger] before[i];
        &&& parent != Some(b.id) ==> after[i] == b
        &&& parent == Some(b.id) ==> after[i].id == b.id && after[i].process.context == b.process.context
            && after[i].process.state == b.process.state
            && after[i].process.parent == b.process.parent && after[i].process.dead_children@
            == b.process.dead_children@.push(b.id)
    }
}

impl RoundRobinScheduler {
    /// The queue, front first.
    pub closed spec fn queue(&self) -> Seq<QueuedProcess> {
        self.processes@
    }

    /// A scheduler with an empty queue.
    pub fn new() -> (r: Self)
        ensures
            r.queue() == Seq::<QueuedProcess>::empty(),
    {
        RoundRobinScheduler { processes: VecDeque::new() }
    }

    /// Adds process `id` at the back of the queue.
    pub fn add(&mut self, id: ProcessId, process: ScheduledProcess)
        ensures
            final(self).queue() == old(self).queue().push(QueuedProcess { id, process }),
    {
        self.processes.push_back(QueuedProcess { id, process });
    }

    /// Switches the process whose id is in `tf`'s thread-id register out
    /// into `state`: its first entry takes that state and the registers
    /// `tf`, and moves to the back of the queue; `ProcessNotFound` (and no
    /// change) when it is not in the queue.
    pub fn schedule_out(&mut self, tf: &TrapFrame, state: State) -> (r: Result<(), SchedulerError>)
        ensures
            index_of_id(old(self).queue(), ProcessId(tf.tpidr), 0) < old(self).queue().len() ==> r is Ok,
            index_of_id(old(self).queue(), ProcessId(tf.tpidr), 0) >= old(self).queue().len() ==> r == Err::<
                (),
                SchedulerError,
            >(SchedulerError::ProcessNotFound),
            final(self).queue() == switched_out(old(self).queue(), ProcessId(tf.tpidr), state, *tf),
    {
        let id = ProcessId(tf.tpidr);
        proof {
            lemma_index_of_id(self.queue(), id, 0);
        }
        let len = self.processes.len();
        let mut i: usize = 0;
        while i < len
            invariant
                len == self.queue().len(),
                i <= len,
                id == ProcessId(tf.tpidr),
                self.queue() == old(self).queue(),
                index_of_id(self.queue(), id, 0) == index_of_id(self.queue(), id, i as int),
            decreases len - i,
        {
            if self.processes[i].id == id {
                let mut p = self.processes.remove(i).unwrap();
                p.process.state = state;
                p.process.context = *tf;
                self.processes.push_back(p);
                return Ok(());
            }
            i += 1;
        }
        Err(SchedulerError::ProcessNotFound)
    }

    /// Switches in the first ready process: it runs at the front of the
    /// queue, its saved registers are restored into `tf`, and its id is
    /// returned; `NoRunnableProcess` (and `tf` as it was) when none is
    /// ready.
    pub fn schedule_in(&mut self, tf: &mut TrapFrame) -> (r: Result<ProcessId, SchedulerError>)
        ensures
            queue_scheduled_in(old(self).queue(), final(self).queue(), *old(tf), *final(tf), r),
    {
        proof {
            lemma_index_of_ready(self.queue(), 0);
        }
        let len = self.processes.len();
        let mut j: usize = 0;
        while j < len
            invariant
                len == self.queue().len(),
                j <= len,
                self.queue() == old(self).queue(),
                *tf == *old(tf),
                index_of_ready(self.queue(), 0) == index_of_ready(self.queue(), j as int),
            decreases len - j,
        {
            if self.processes[j].process.state == State::Ready {
                let ghost s = self.queue();
                let mut p = self.processes.remove(j).unwrap();
                let id = p.id;
                p.process.state = State::Running;
                *tf = p.process.context;
                self.processes.push_front(p);
                proof {
                    assert(self.queue() =~= seq![with_state(s[j as int], State::Running)] + s.remove(j as int));
                }
                return Ok(id);
            }
            j += 1;
        }
        Err(SchedulerError::NoRunnableProcess)
    }

    /// Tells the scheduler that the event process `id` waits for has come
    /// (its poll function said so): each process in the queue with that id
    /// that is waiting becomes ready. Returns whether there was one.
    pub fn wake(&mut self, id: ProcessId) -> (r: bool)
        ensures
            r == exists|i: int|
                0 <= i < old(self).queue().len() && #[trigger] old(self).queue()[i].id == id
                    && old(self).queue()[i].process.state == State::Waiting,
            final(self).queue().len() == old(self).queue().len(),
            forall|i: int| 0 <= i < old(self).queue().len() ==> #[trigger] final(self).queue()[i] == woken_queued(
                old(self).queue()[i],
                id,
            ),
    {
        let len = self.processes.len();
        let mut found = false;
        let mut i: usize = 0;
        while i < len
            invariant
                len == old(self).queue().len(),
                i <= len,
                self.queue().len() == len,
                forall|j: int| i <= j < len ==> #[trigger] self.queue()[j] == old(self).queue()[j],
                forall|j: int| 0 <= j < i ==> #[trigger] self.queue()[j] == woken_queued(old(self).queue()[j], id),
                found == exists|j: int|
                    0 <= j < i && #[trigger] old(self).queue()[j].id == id
                        && old(self).queue()[j].process.state == State::Waiting,
            decreases len - i,
        {
            if self.processes[i].id == id && self.processes[i].process.state == State::Waiting {
                let ghost before = self.queue();
                let mut entry = self.processes.remove(i).unwrap();
                entry.process.state = State::Ready;
                self.processes.insert(i, entry);
                proof {
                    assert forall|j: int| 0 <= j < len && j != i implies #[trigger] self.queue()[j] == before[j] by {}
                }
                found = true;
            }
            i += 1;
        }
        found
    }

    /// Each process in the queue whose id is `parent` records its own id
    /// among its dead children.
    fn notify_parent(&mut self, parent: ProcessId)
        ensures
            notified_queue(old(self).queue(), final(self).queue(), Some(parent)),
    {
        let len = self.processes.len();
        let mut i: usize = 0;
        while i < len
            invariant
                len == old(self).queue().len(),
                i <= len,
                self.queue().len() == len,
                forall|j: int| i <= j < len ==> #[trigger] self.queue()[j] == old(self).queue()[j],
                forall|j: int| 0 <= j < i ==> {
                    let b = #[trigger] old(self).queue()[j];
                    let a = self.queue()[j];
                    &&& Some(parent) != Some(b.id) ==> a == b
                    &&& Some(parent) == Some(b.id) ==> a.id == b.id && a.process.context == b.process.context
                        && a.process.state == b.process.state
                        && a.process.parent == b.process.parent && a.process.dead_children@
                        == b.process.dead_children@.push(b.id)
                },
            decreases len - i,
        {
            if self.processes[i].id == parent {
                let ghost before = self.queue();
                let mut entry = self.processes.remove(i).unwrap();
                let id = entry.id;
                entry.process.dead_children.push(id);
                self.processes.insert(i, entry);
                proof {
                    assert forall|j: int| 0 <= j < len && j != i implies #[trigger] self.queue()[j] == before[j] by {}
                }
            }
            i += 1;
        }
    }

    /// Switches the process whose id is in `tf`'s thread-id register out
    /// into `state` (saving its registers from `tf`) when the trigger is
    /// force or the timer, and switches in the next process (restoring its
    /// registers into `tf`); a yield changes nothing. A dead process leaves
    /// the queue, and each process whose id is its parent's records its own
    /// id among its dead children. `ProcessNotFound` (and no change) when
    /// the process is not in the queue; otherwise the result of switching
    /// in.
    pub fn switch(&mut self, tf: &mut TrapFrame, trigger: SwitchTrigger, state: State) -> (r: Result<(), SchedulerError>)
        ensures
            trigger == SwitchTrigger::Yield ==> r is Ok && final(self).queue() == old(self).queue() && *final(tf)
                == *old(tf),
            trigger != SwitchTrigger::Yield ==> ({
                let s = old(self).queue();
                let id = ProcessId(old(tf).tpidr);
                let i = index_of_id(s, id, 0);
                let out = switched_out(s, id, state, *old(tf));
                &&& i >= s.len() ==> r == Err::<(), SchedulerError>(SchedulerError::ProcessNotFound)
                    && final(self).queue() == s && *final(tf) == *old(tf)
                &&& i < s.len() ==> exists|mid: Seq<QueuedProcess>, started: Result<ProcessId, SchedulerError>| {
                    &&& state == State::Dead ==> notified_queue(out.drop_last(), mid, out.last().process.parent)
                    &&& state != State::Dead ==> mid == out
                    &&& #[trigger] queue_scheduled_in(mid, final(self).queue(), *old(tf), *final(tf), started)
                    &&& started is Ok ==> r is Ok
                    &&& started is Err ==> r == Err::<(), SchedulerError>(started->Err_0)
                }
            }),
    {
        if trigger == SwitchTrigger::Yield {
            return Ok(());
        }
        proof {
            lemma_index_of_id(self.queue(), ProcessId(tf.tpidr), 0);
        }
        let ghost tf0 = *tf;
        let is_dying = state == State::Dead;
        match self.schedule_out(tf, state) {
            Ok(()) => {},
            Err(e) => return Err(e),
        }
        if is_dying {
            let process = match self.processes.pop_back() {
                Some(p) => p,
                None => return Err(SchedulerError::ProcessNotFound),
            };
            match process.process.parent {
                Some(parent) => self.notify_parent(parent),
                None => {},
            }
        }
        let ghost mid = self.queue();
        let started = self.schedule_in(tf);
        proof {
            assert(queue_scheduled_in(mid, self.queue(), tf0, *tf, started));
        }
        match started {
            Ok(_) => Ok(()),
            Err(e) => Err(e),
        }
    }

    /// Takes the process whose id is in `tf`'s thread-id register out of
    /// the queue (switched out as ready with its registers saved from `tf`,
    /// then dropped), switches in the next process (restoring its registers
    /// into `tf`), and returns the process taken out; `ProcessNotFound` when
    /// it is not in the queue, or the error of switching in.
    pub fn remove(&mut self, tf: &mut TrapFrame) -> (r: Result<QueuedProcess, SchedulerError>)
        ensures
            ({
                let s = old(self).queue();
                let id = ProcessId(old(tf).tpidr);
                let i = index_of_id(s, id, 0);
                let out = switched_out(s, id, State::Ready, *old(tf));
                &&& i >= s.len() ==> r == Err::<QueuedProcess, SchedulerError>(SchedulerError::ProcessNotFound)
                    && final(self).queue() == s && *final(tf) == *old(tf)
                &&& i < s.len() ==> exists|started: Result<ProcessId, SchedulerError>| {
                    &&& #[trigger] queue_scheduled_in(out.drop_last(), final(self).queue(), *old(tf), *final(tf), started)
                    &&& started is Ok ==> r == Ok::<QueuedProcess, SchedulerError>(out.last())
                    &&& started is Err ==> r == Err::<QueuedProcess, SchedulerError>(started->Err_0)
                }
            }),
    {
        proof {
            lemma_index_of_id(self.queue(), ProcessId(tf.tpidr), 0);
        }
        let ghost tf0 = *tf;
        match self.schedule_out(tf, State::Ready) {
            Ok(()) => {},
            Err(e) => return Err(e),
        }
        let process = match self.processes.pop_back() {
            Some(p) => p,
            None => return Err(SchedulerError::ProcessNotFound),
        };
        let ghost mid = self.queue();
        proof {
            let out = switched_out(old(self).queue(), ProcessId(tf0.tpidr), State::Ready, tf0);
            assert(mid =~= out.drop_last());
            assert(process == out.last());
        }
        let started = self.schedule_in(tf);
        proof {
            assert(queue_scheduled_in(mid, self.queue(), tf0, *tf, started));
        }
        match started {
            Ok(_) => Ok(process),
            Err(e) => Err(e),
        }
    }
}

} // verus!
