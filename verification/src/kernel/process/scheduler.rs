//! A simple queue scheduler: processes wait in a queue, the running one at
//! its front; a process switched out goes to the back, and the first
//! ready process is switched in.

use vstd::prelude::*;

use std::collections::VecDeque;

use crate::kernel::process::state::{with_tpidr, ScheduledProcess, State};
use crate::kernel::process::ProcessId;
use crate::kernel::scheduling::global::next_process_id;
use crate::kernel::traps::frame::TrapFrame;

verus! {

broadcast use vstd::std_specs::vecdeque::group_vec_dequeue_axioms;

/// A process in the queue, with its id.
pub struct QueuedProcess {
    pub id: ProcessId,
    pub process: ScheduledProcess,
}

/// The queue scheduler.
pub struct Scheduler {
    processes: VecDeque<QueuedProcess>,
    last_id: Option<ProcessId>,
}

/// `p` in state `state`, all else as it was.
pub open spec fn with_state(p: QueuedProcess, state: State) -> QueuedProcess {
    saved(p, state, p.process.context)
}

/// `p` in state `state` with saved registers `context`, all else as it was.
pub open spec fn saved(p: QueuedProcess, state: State, context: TrapFrame) -> QueuedProcess {
    QueuedProcess {
        id: p.id,
        process: ScheduledProcess {
            context,
            state,
            parent: p.process.parent,
            dead_children: p.process.dead_children,
        },
    }
}


/// The first index, from `i` on, of a process with id `pid` (or the
/// length).
pub open spec fn index_of_id(s: Seq<QueuedProcess>, pid: ProcessId, i: int) -> int
    decreases s.len() - i,
{
    if i < 0 || i >= s.len() {
        s.len() as int
    } else if s[i].id == pid {
        i
    } else {
        index_of_id(s, pid, i + 1)
    }
}

/// The first index, from `i` on, of a ready process (or the length).
pub open spec fn index_of_ready(s: Seq<QueuedProcess>, i: int) -> int
    decreases s.len() - i,
{
    if i < 0 || i >= s.len() {
        s.len() as int
    } else if s[i].process.state == State::Ready {
        i
    } else {
        index_of_ready(s, i + 1)
    }
}

pub proof fn lemma_index_of_id(s: Seq<QueuedProcess>, pid: ProcessId, i: int)
    requires
        0 <= i <= s.len(),
    ensures
        i <= index_of_id(s, pid, i) <= s.len(),
        index_of_id(s, pid, i) < s.len() ==> s[index_of_id(s, pid, i)].id == pid,
    decreases s.len() - i,
{
    if i < s.len() && s[i].id != pid {
        lemma_index_of_id(s, pid, i + 1);
    }
}

pub proof fn lemma_index_of_ready(s: Seq<QueuedProcess>, i: int)
    requires
        0 <= i <= s.len(),
    ensures
        i <= index_of_ready(s, i) <= s.len(),
    decreases s.len() - i,
{
    if i < s.len() && s[i].process.state != State::Ready {
        lemma_index_of_ready(s, i + 1);
    }
}

/// The queue after process `pid` is switched out into `state` with its
/// registers saved as `context`: its first entry moves to the back so
/// (unchanged without one).
pub open spec fn switched_out(s: Seq<QueuedProcess>, pid: ProcessId, state: State, context: TrapFrame) -> Seq<
    QueuedProcess,
> {
    let i = index_of_id(s, pid, 0);
    if i < s.len() {
        s.remove(i).push(saved(s[i], state, context))
    } else {
        s
    }
}

impl Scheduler {
    /// The queue, front first.
    pub closed spec fn queue(&self) -> Seq<QueuedProcess> {
        self.processes@
    }

    /// The last process id given out.
    pub closed spec fn last_id(&self) -> Option<ProcessId> {
        self.last_id
    }

    /// The scheduler's invariant: each process in the queue has its id in
    /// its saved thread-id register.
    pub open spec fn wf(&self) -> bool {
        forall|i: int| 0 <= i < self.queue().len() ==> (#[trigger] self.queue()[i]).id.0 == self.queue()[i].process.context.tpidr
    }

    /// A scheduler with an empty queue.
    pub fn new() -> (r: Self)
        ensures
            r.wf(),
            r.queue() == Seq::<QueuedProcess>::empty(),
            r.last_id() is None,
    {
        Scheduler { processes: VecDeque::new(), last_id: None }
    }

    /// Gives out the next process id: 0 first, then one more each time;
    /// `None` once the greatest id has been given.
    pub fn new_pid(&mut self) -> (r: Option<ProcessId>)
        ensures
            final(self).queue() == old(self).queue(),
            old(self).last_id() == Some(ProcessId(u64::MAX)) ==> r is None && *final(self) == *old(self),
            old(self).last_id() != Some(ProcessId(u64::MAX)) ==> r == Some(
                next_process_id(old(self).last_id()),
            ) && final(self).last_id() == r,
    {
        let next = match self.last_id {
            None => ProcessId(0),
            Some(pid) => {
                if pid.0 == u64::MAX {
                    return None;
                }
                ProcessId(pid.0 + 1)
            },
        };
        self.last_id = Some(next);
        Some(next)
    }

    /// Adds a process at the back of the queue with a new id, which is also
    /// written into its thread-id register, and returns the id; `None` (and
    /// no change) when no id is left.
    pub fn add(&mut self, process: ScheduledProcess) -> (r: Option<ProcessId>)
        requires
            old(self).wf(),
        ensures
            final(self).wf(),
            old(self).last_id() == Some(ProcessId(u64::MAX)) ==> r is None && *final(self) == *old(self),
            old(self).last_id() != Some(ProcessId(u64::MAX)) ==> ({
                let id = next_process_id(old(self).last_id());
                &&& r == Some(id)
                &&& final(self).last_id() == r
                &&& final(self).queue() == old(self).queue().push(
                    QueuedProcess { id, process: with_tpidr(process, id) },
                )
            }),
    {
        let id = match self.new_pid() {
            Some(id) => id,
            None => return None,
        };
        let mut process = process;
        process.context.tpidr = id.0;
        self.processes.push_back(QueuedProcess { id, process });
        proof {
            assert forall|i: int| 0 <= i < self.queue().len() implies (#[trigger] self.queue()[i]).id.0
                == self.queue()[i].process.context.tpidr by {
                if i < old(self).queue().len() {
                    assert(self.queue()[i] == old(self).queue()[i]);
                }
            }
        }
        Some(id)
    }

    /// Switches the process whose id is in `tf`'s thread-id register out
    /// into `new_state`: its first entry takes that state and the registers
    /// `tf`, and moves to the back of the queue. Returns whether the process
    /// was found.
    pub fn schedule_out(&mut self, new_state: State, tf: &TrapFrame) -> (r: bool)
        requires
            old(self).wf(),
        ensures
            final(self).wf(),
            r == (index_of_id(old(self).queue(), ProcessId(tf.tpidr), 0) < old(self).queue().len()),
            final(self).queue() == switched_out(old(self).queue(), ProcessId(tf.tpidr), new_state, *tf),
            final(self).last_id() == old(self).last_id(),
    {
        let process_id = ProcessId(tf.tpidr);
        proof {
            lemma_index_of_id(self.queue(), process_id, 0);
        }
        let len = self.processes.len();
        let mut i: usize = 0;
        while i < len
            invariant
                len == self.queue().len(),
                i <= len,
                process_id == ProcessId(tf.tpidr),
                index_of_id(self.queue(), process_id, 0) == index_of_id(self.queue(), process_id, i as int),
                self.queue() == old(self).queue(),
                self.last_id() == old(self).last_id(),
                self.wf(),
            decreases len - i,
        {
            if self.processes[i].id == process_id {
                let ghost s = self.queue();
                let mut p = self.processes.remove(i).unwrap();
                p.process.state = new_state;
                p.process.context = *tf;
                self.processes.push_back(p);
                proof {
                    s.remove_ensures(i as int);
                    assert forall|k: int| 0 <= k < self.queue().len() implies (#[trigger] self.queue()[k]).id.0
                        == self.queue()[k].process.context.tpidr by {
                        if k < s.len() - 1 {
                            assert(self.queue()[k] == s.remove(i as int)[k]);
                            assert(s.remove(i as int)[k] == s[if k < i { k } else { k + 1 }]);
                        }
                    }
                }
                return true;
            }
            i += 1;
        }
        false
    }

    /// Switches in the first ready process: it moves to the front of the
    /// queue and runs, and its saved registers are restored into `tf`.
    /// Returns its id, or `None` (leaving `tf` as it was) when no process is
    /// ready.
    pub fn switch_to(&mut self, tf: &mut TrapFrame) -> (r: Option<ProcessId>)
        requires
            old(self).wf(),
        ensures
            final(self).wf(),
            r matches Some(id) ==> id.0 == final(tf).tpidr,
            ({
                let s = old(self).queue();
                let j = index_of_ready(s, 0);
                &&& j >= s.len() ==> r is None && final(self).queue() == s && *final(tf) == *old(tf)
                &&& j < s.len() ==> {
                    &&& r == Some(s[j].id)
                    &&& *final(tf) == s[j].process.context
                    &&& final(self).queue() == seq![with_state(s[j], State::Running)] + s.remove(j)
                }
            }),
            final(self).last_id() == old(self).last_id(),
    {
        proof {
            lemma_index_of_ready(self.queue(), 0);
        }
        let len = self.processes.len();
        let mut j: usize = 0;
        while j < len
            invariant
                len == self.queue().len(),
                j <= len,
                self.queue() == old(self).queue(),
                self.last_id() == old(self).last_id(),
                *tf == *old(tf),
                index_of_ready(self.queue(), 0) == index_of_ready(self.queue(), j as int),
                self.wf(),
            decreases len - j,
        {
            if self.processes[j].process.state == State::Ready {
                let ghost s = self.queue();
                let mut p = self.processes.remove(j).unwrap();
                p.process.state = State::Running;
                let id = ProcessId(p.process.context.tpidr);
                *tf = p.process.context;
                self.processes.push_front(p);
                proof {
                    assert(s[j as int].id.0 == s[j as int].process.context.tpidr);
                    assert(self.queue() =~= seq![with_state(s[j as int], State::Running)] + s.remove(j as int));
                    s.remove_ensures(j as int);
                    assert forall|k: int| 0 <= k < self.queue().len() implies (#[trigger] self.queue()[k]).id.0
                        == self.queue()[k].process.context.tpidr by {
                        if k > 0 {
                            assert(self.queue()[k] == s.remove(j as int)[k - 1]);
                            assert(s.remove(j as int)[k - 1] == s[if k - 1 < j { k - 1 } else { k }]);
                        }
                    }
                }
                return Some(id);
            }
            j += 1;
        }
        None
    }

    /// Kills the process whose id is in `tf`'s thread-id register: it is
    /// switched out as dead (its registers saved from `tf`), then the
    /// last process of the queue is dropped, and its parent (the first
    /// process with the parent's id, if any) records it among its dead
    /// children. Returns the id of the dropped process (`None` when the
    /// queue is empty).
    pub fn kill(&mut self, tf: &TrapFrame) -> (r: Option<ProcessId>)
        requires
            old(self).wf(),
        ensures
            final(self).wf(),
            ({
                let s = switched_out(old(self).queue(), ProcessId(tf.tpidr), State::Dead, *tf);
                &&& s.len() == 0 ==> r is None && final(self).queue() == s
                &&& s.len() > 0 ==> {
                    let dead = s.last();
                    let rest = s.drop_last();
                    &&& r == Some(dead.id)
                    &&& final(self).queue().len() == rest.len()
                    &&& match dead.process.parent {
                        Some(parent) => {
                            let k = index_of_id(rest, parent, 0);
                            &&& k >= rest.len() ==> final(self).queue() == rest
                            &&& k < rest.len() ==> {
                                &&& forall|i: int| 0 <= i < rest.len() && i != k ==> final(self).queue()[i] == rest[i]
                                &&& final(self).queue()[k].id == rest[k].id
                                &&& final(self).queue()[k].process.context == rest[k].process.context
                                &&& final(self).queue()[k].process.state == rest[k].process.state
                                &&& final(self).queue()[k].process.parent == rest[k].process.parent
                                &&& final(self).queue()[k].process.dead_children@ == rest[k].process.dead_children@.push(dead.id)
                            }
                        },
                        None => final(self).queue() == rest,
                    }
                }
            }),
            final(self).last_id() == old(self).last_id(),
    {
        self.schedule_out(State::Dead, tf);
        let ghost s_out = self.queue();
        let dead = match self.processes.pop_back() {
            Some(dead) => dead,
            None => return None,
        };
        let ghost rest = self.queue();
        proof {
            assert(rest =~= s_out.drop_last());
            assert forall|i: int| 0 <= i < rest.len() implies (#[trigger] rest[i]).id.0 == rest[i].process.context.tpidr by {
                assert(rest[i] == s_out[i]);
            }
        }
        if let Some(parent) = dead.process.parent {
            proof {
                lemma_index_of_id(rest, parent, 0);
            }
            let len = self.processes.len();
            let mut k: usize = 0;
            while k < len
                invariant
                    len == self.queue().len(),
                    k <= len,
                    self.queue() == rest,
                    self.last_id() == old(self).last_id(),
                    s_out == switched_out(old(self).queue(), ProcessId(tf.tpidr), State::Dead, *tf),
                    s_out.len() > 0,
                    rest == s_out.drop_last(),
                    dead == s_out.last(),
                    dead.process.parent == Some(parent),
                    index_of_id(rest, parent, 0) == index_of_id(rest, parent, k as int),
                    forall|i: int| 0 <= i < rest.len() ==> (#[trigger] rest[i]).id.0 == rest[i].process.context.tpidr,
                decreases len - k,
            {
                if self.processes[k].id == parent {
                    let mut p = self.processes.remove(k).unwrap();
                    p.process.dead_children.push(dead.id);
                    self.processes.insert(k, p);
                    proof {
                        rest.remove_ensures(k as int);
                        assert forall|i: int| 0 <= i < rest.len() && i != k implies self.queue()[i] == rest[i] by {
                            if i > k {
                                assert(self.queue()[i] == rest.remove(k as int)[i - 1]);
                            }
                        }
                        assert forall|i: int| 0 <= i < self.queue().len() implies (#[trigger] self.queue()[i]).id.0
                            == self.queue()[i].process.context.tpidr by {
                            if i != k {
                                assert(self.queue()[i] == rest[i]);
                            }
                        }
                    }
                    return Some(dead.id);
                }
                k += 1;
            }
        }
        Some(dead.id)
    }
}

} // verus!

verus! {

/// Queue turns: when the first ready process is switched in and then
/// switched out as ready, it leaves its place for the back of the queue,
/// ready, and the other processes keep their order.
pub proof fn lemma_queue_turn(s: Seq<QueuedProcess>)
    requires
        index_of_ready(s, 0) < s.len(),
    ensures
        ({
            let j = index_of_ready(s, 0);
            let running = seq![with_state(s[j], State::Running)] + s.remove(j);
            switched_out(running, s[j].id, State::Ready, s[j].process.context) == s.remove(j).push(
                with_state(s[j], State::Ready),
            )
        }),
{
    lemma_index_of_ready(s, 0);
    let j = index_of_ready(s, 0);
    let running = seq![with_state(s[j], State::Running)] + s.remove(j);
    assert(index_of_id(running, s[j].id, 0) == 0);
    assert(running.remove(0) =~= s.remove(j));
}

} // verus!
