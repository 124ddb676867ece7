//! A proportional-share scheduler: each process accumulates virtual
//! runtime while it runs, and the ready process with the greatest virtual
//! runtime is switched in next, for a time slice that shrinks with the
//! number of processes waiting their turn.

use vstd::prelude::*;

use crate::kernel::process::state::{ScheduledProcess, State};
use crate::kernel::process::ProcessId;
use crate::kernel::scheduling::global::{FAIR_MINIMUM_GRANULARITY, FAIR_SCHEDULER_LATENCY};
use crate::kernel::scheduling::scheduler::SchedulerError;
use crate::kernel::traps::frame::TrapFrame;

verus! {

/// Nanoseconds per microsecond: virtual runtime counts microseconds.
pub const NANOS_PER_MICRO: u128 = 1000;

/// A process with the virtual runtime (in microseconds) it has gathered.
pub struct ShareProcess {
    pub id: ProcessId,
    pub process: ScheduledProcess,
    pub virtual_runtime: u128,
}

/// A running process and when it was switched in (in nanoseconds).
pub struct RunningShare {
    pub information: ShareProcess,
    pub scheduled_in_at: u128,
}

/// The proportional-share scheduler.
pub struct ProportionalShareScheduler {
    running: Vec<RunningShare>,
    processes: Vec<ShareProcess>,
    scheduler_latency: u128,
    minimum_granularity: u128,
}

/// The index of the ready process with the greatest virtual runtime (the
/// earliest among equals), or -1 when no process is ready.
pub open spec fn best_ready(s: Seq<ShareProcess>) -> int
    decreases s.len(),
{
    if s.len() == 0 {
        -1
    } else {
        let b = best_ready(s.drop_last());
        if s.last().process.state == State::Ready && (b == -1 || s.last().virtual_runtime
            > s[b].virtual_runtime) {
            s.len() - 1
        } else {
            b
        }
    }
}

pub proof fn lemma_best_ready(s: Seq<ShareProcess>)
    ensures
        -1 <= best_ready(s) < s.len(),
        best_ready(s) >= 0 ==> s[best_ready(s)].process.state == State::Ready,
        best_ready(s) == -1 ==> forall|i: int| 0 <= i < s.len() ==> s[i].process.state != State::Ready,
        best_ready(s) >= 0 ==> forall|i: int|
            0 <= i < s.len() && s[i].process.state == State::Ready ==> #[trigger] s[i].virtual_runtime
                <= s[best_ready(s)].virtual_runtime,
    decreases s.len(),
{
    if s.len() > 0 {
        lemma_best_ready(s.drop_last());
        assert forall|i: int| 0 <= i < s.len() - 1 implies s[i] == s.drop_last()[i] by {}
    }
}

/// The time slice for `waiting` processes waiting their turn: the latency
/// divided among them (their number taken as a 32-bit number; the whole
/// latency when that is 0), but never less than the minimum granularity.
pub open spec fn share_slice(waiting: nat, latency: u128, granularity: u128) -> u128 {
    let n = waiting % 0x1_0000_0000;
    let share = if n == 0 {
        latency
    } else {
        (latency / (n as u128)) as u128
    };
    if share >= granularity {
        share
    } else {
        granularity
    }
}

/// `p` once process `id`'s wait is over: ready if it is `id` and was
/// waiting, else as it was.
pub open spec fn woken(p: ShareProcess, id: ProcessId) -> ShareProcess {
    if p.id == id && p.process.state == State::Waiting {
        ShareProcess { process: ScheduledProcess { state: State::Ready, ..p.process }, ..p }
    } else {
        p
    }
}

/// The index of the first running process with id `pid` (or the length).
pub open spec fn running_index(s: Seq<RunningShare>, pid: ProcessId, i: int) -> int
    decreases s.len() - i,
{
    if i < 0 || i >= s.len() {
        s.len() as int
    } else if s[i].information.id == pid {
        i
    } else {
        running_index(s, pid, i + 1)
    }
}

proof fn lemma_running_index(s: Seq<RunningShare>, pid: ProcessId, i: int)
    requires
        0 <= i <= s.len(),
    ensures
        i <= running_index(s, pid, i) <= s.len(),
        running_index(s, pid, i) < s.len() ==> s[running_index(s, pid, i)].information.id == pid,
    decreases s.len() - i,
{
    if i < s.len() && s[i].information.id != pid {
        lemma_running_index(s, pid, i + 1);
    }
}

/// How switching in relates the scheduler's running processes and other
/// processes before (`running`, `processes`) and after (`running2`,
/// `processes2`), and the trap frame before and after (`tf`, `tf2`), at
/// time `now`, to the result `r`: the ready process with the greatest
/// virtual runtime (the earliest among equals) moves to the end of the
/// running processes, its saved registers are restored into the trap
/// frame, and it is returned with the time slice of those left waiting;
/// `NoRunnableProcess`, and no change, when no process is ready.
pub open spec fn scheduled_in(
    running: Seq<RunningShare>,
    processes: Seq<ShareProcess>,
    running2: Seq<RunningShare>,
    processes2: Seq<ShareProcess>,
    tf: TrapFrame,
    tf2: TrapFrame,
    latency: u128,
    granularity: u128,
    now: u128,
    r: Result<(ProcessId, u128), SchedulerError>,
) -> bool {
    let b = best_ready(processes);
    &&& b == -1 ==> r == Err::<(ProcessId, u128), SchedulerError>(SchedulerError::NoRunnableProcess)
        && processes2 == processes && running2 == running && tf2 == tf
    &&& b >= 0 ==> {
        let chosen = processes[b];
        let started = running2.last();
        &&& r == Ok::<(ProcessId, u128), SchedulerError>(
            (chosen.id, share_slice((processes.len() - 1) as nat, latency, granularity)),
        )
        &&& tf2 == chosen.process.context
        &&& processes2 == processes.remove(b)
        &&& running2.drop_last() == running
        &&& running2.len() == running.len() + 1
        &&& started.scheduled_in_at == now
        &&& started.information.id == chosen.id
        &&& started.information.virtual_runtime == chosen.virtual_runtime
        &&& started.information.process.context == chosen.process.context
        &&& started.information.process.state == State::Running
        &&& started.information.process.parent == chosen.process.parent
        &&& started.information.process.dead_children == chosen.process.dead_children
    }
}

/// A running process as it is switched out into `state` at time `now`,
/// with its registers saved as `context`: the microseconds it ran are added
/// to its virtual runtime.
pub open spec fn switched_share(e: RunningShare, state: State, now: u128, context: TrapFrame) -> ShareProcess {
    ShareProcess {
        id: e.information.id,
        process: ScheduledProcess {
            context,
            state,
            parent: e.information.process.parent,
            dead_children: e.information.process.dead_children,
        },
        virtual_runtime: (e.information.virtual_runtime + (now - e.scheduled_in_at) / (NANOS_PER_MICRO as int)) as u128,
    }
}

/// Whether `after` is `before` once each process whose id is `parent`
/// records its own id among its dead children.
pub open spec fn notified_share(before: Seq<ShareProcess>, after: Seq<ShareProcess>, parent: Option<ProcessId>) -> bool {
    &&& after.len() == before.len()
    &&& forall|i: int| 0 <= i < before.len() ==> {
        let b = #[trigger] before[i];
        &&& parent != Some(b.id) ==> after[i] == b
        &&& parent == Some(b.id) ==> after[i].id == b.id && after[i].virtual_runtime == b.virtual_runtime
            && after[i].process.context == b.process.context && after[i].process.state == b.process.state && after[i].process.parent == b.process.parent
            && after[i].process.dead_children@ == b.process.dead_children@.push(b.id)
    }
}

/// `notified_share` for running processes, whose switch-in times stay.
pub open spec fn notified_running(before: Seq<RunningShare>, after: Seq<RunningShare>, parent: Option<ProcessId>) -> bool {
    &&& after.len() == before.len()
    &&& forall|i: int| 0 <= i < before.len() ==> {
        let b = #[trigger] before[i];
        &&& parent != Some(b.information.id) ==> after[i] == b
        &&& parent == Some(b.information.id) ==> after[i].scheduled_in_at == b.scheduled_in_at
            && after[i].information.id == b.information.id && after[i].information.virtual_runtime
            == b.information.virtual_runtime && after[i].information.process.context
            == b.information.process.context && after[i].information.process.state
            == b.information.process.state && after[i].information.process.parent
            == b.information.process.parent && after[i].information.process.dead_children@
            == b.information.process.dead_children@.push(b.information.id)
    }
}

impl ProportionalShareScheduler {
    /// The running processes, in the order they were switched in.
    pub closed spec fn running(&self) -> Seq<RunningShare> {
        self.running@
    }

    /// The processes not running, in the order they became so.
    pub closed spec fn processes(&self) -> Seq<ShareProcess> {
        self.processes@
    }

    pub closed spec fn scheduler_latency(&self) -> u128 {
        self.scheduler_latency
    }

    pub closed spec fn minimum_granularity(&self) -> u128 {
        self.minimum_granularity
    }

    /// A scheduler with no processes, a 48 ms latency and a 6 ms minimum
    /// granularity.
    pub fn new() -> (r: Self)
        ensures
            r.running() == Seq::<RunningShare>::empty(),
            r.processes() == Seq::<ShareProcess>::empty(),
            r.scheduler_latency() == FAIR_SCHEDULER_LATENCY,
            r.minimum_granularity() == FAIR_MINIMUM_GRANULARITY,
    {
        ProportionalShareScheduler {
            running: Vec::new(),
            processes: Vec::new(),
            scheduler_latency: FAIR_SCHEDULER_LATENCY,
            minimum_granularity: FAIR_MINIMUM_GRANULARITY,
        }
    }

    /// Adds process `id` with no virtual runtime.
    pub fn add(&mut self, id: ProcessId, process: ScheduledProcess)
        ensures
            final(self).processes() == old(self).processes().push(
                ShareProcess { id, process, virtual_runtime: 0 },
            ),
            final(self).running() == old(self).running(),
            final(self).scheduler_latency() == old(self).scheduler_latency(),
            final(self).minimum_granularity() == old(self).minimum_granularity(),
    {
        self.processes.push(ShareProcess { id, process, virtual_runtime: 0 });
    }

    /// Takes the running process whose id is in `tf`'s thread-id register
    /// out of the running ones at time `now`, in state `state`, with its
    /// registers saved from `tf`, adding the microseconds it ran to its
    /// virtual runtime; `ProcessNotFound` when it is not running.
    pub fn schedule_out(&mut self, tf: &TrapFrame, state: State, now: u128) -> (r: Result<ShareProcess, SchedulerError>)
        requires
            forall|i: int| 0 <= i < old(self).running().len() ==> ({
                let e = #[trigger] old(self).running()[i];
                e.scheduled_in_at <= now && e.information.virtual_runtime + (now - e.scheduled_in_at) / (NANOS_PER_MICRO as int) <= u128::MAX
            }),
        ensures
            ({
                let s = old(self).running();
                let i = running_index(s, ProcessId(tf.tpidr), 0);
                &&& i >= s.len() ==> r == Err::<ShareProcess, SchedulerError>(SchedulerError::ProcessNotFound)
                    && final(self).running() == s
                &&& i < s.len() ==> r == Ok::<ShareProcess, SchedulerError>(switched_share(s[i], state, now, *tf))
                    && final(self).running() == s.remove(i)
            }),
            final(self).processes() == old(self).processes(),
            final(self).scheduler_latency() == old(self).scheduler_latency(),
            final(self).minimum_granularity() == old(self).minimum_granularity(),
    {
        let id = ProcessId(tf.tpidr);
        proof {
            lemma_running_index(self.running(), id, 0);
        }
        let len = self.running.len();
        let mut i: usize = 0;
        while i < len
            invariant
                len == self.running().len(),
                i <= len,
                id == ProcessId(tf.tpidr),
                self.running() == old(self).running(),
                self.processes() == old(self).processes(),
                self.scheduler_latency() == old(self).scheduler_latency(),
                self.minimum_granularity() == old(self).minimum_granularity(),
                running_index(self.running(), id, 0) == running_index(self.running(), id, i as int),
                forall|j: int| 0 <= j < old(self).running().len() ==> ({
                    let e = #[trigger] old(self).running()[j];
                    e.scheduled_in_at <= now && e.information.virtual_runtime + (now - e.scheduled_in_at) / (NANOS_PER_MICRO as int) <= u128::MAX
                }),
            decreases len - i,
        {
            if self.running[i].information.id == id {
                proof {
                    let e = old(self).running()[i as int];
                    assert(e.scheduled_in_at <= now);
                }
                let RunningShare { information, scheduled_in_at } = self.running.remove(i);
                let mut information = information;
                let ran = (now - scheduled_in_at) / NANOS_PER_MICRO;
                information.process.state = state;
                information.process.context = *tf;
                information.virtual_runtime = information.virtual_runtime + ran;
                return Ok(information);
            }
            i += 1;
        }
        Err(SchedulerError::ProcessNotFound)
    }

    /// Tells the scheduler that the event process `id` waits for has come
    /// (its poll function said so): each held process with that id that is
    /// waiting becomes ready. Returns whether there was one.
    pub fn wake(&mut self, id: ProcessId) -> (r: bool)
        ensures
            r == exists|i: int|
                0 <= i < old(self).processes().len() && #[trigger] old(self).processes()[i].id == id
                    && old(self).processes()[i].process.state == State::Waiting,
            final(self).processes().len() == old(self).processes().len(),
            forall|i: int| 0 <= i < old(self).processes().len() ==> #[trigger] final(self).processes()[i] == woken(
                old(self).processes()[i],
                id,
            ),
            final(self).running() == old(self).running(),
            final(self).scheduler_latency() == old(self).scheduler_latency(),
            final(self).minimum_granularity() == old(self).minimum_granularity(),
    {
        let len = self.processes.len();
        let mut found = false;
        let mut i: usize = 0;
        while i < len
            invariant
                len == old(self).processes().len(),
                i <= len,
                self.processes().len() == len,
                self.running() == old(self).running(),
                self.scheduler_latency() == old(self).scheduler_latency(),
                self.minimum_granularity() == old(self).minimum_granularity(),
                forall|j: int| i <= j < len ==> #[trigger] self.processes()[j] == old(self).processes()[j],
                forall|j: int| 0 <= j < i ==> #[trigger] self.processes()[j] == woken(old(self).processes()[j], id),
                found == exists|j: int|
                    0 <= j < i && #[trigger] old(self).processes()[j].id == id
                        && old(self).processes()[j].process.state == State::Waiting,
            decreases len - i,
        {
            if self.processes[i].id == id && self.processes[i].process.state == State::Waiting {
                let ghost before = self.processes();
                let mut entry = self.processes.remove(i);
                entry.process.state = State::Ready;
                self.processes.insert(i, entry);
                proof {
                    assert forall|j: int| 0 <= j < len && j != i implies #[trigger] self.processes()[j] == before[j] by {}
                }
                found = true;
            }
            i += 1;
        }
        found
    }

    /// The index of the ready process to switch in next.
    fn best_index(&self) -> (r: Option<usize>)
        ensures
            best_ready(self.processes()) == -1 ==> r is None,
            best_ready(self.processes()) >= 0 ==> r == Some(best_ready(self.processes()) as usize),
    {
        let ghost s = self.processes();
        let len = self.processes.len();
        let mut best: Option<usize> = None;
        let mut i: usize = 0;
        proof {
            lemma_best_ready(s.take(0));
        }
        while i < len
            invariant
                s == self.processes(),
                len == s.len(),
                i <= len,
                best_ready(s.take(i as int)) == -1 ==> best is None,
                best_ready(s.take(i as int)) >= 0 ==> best == Some(best_ready(s.take(i as int)) as usize),
                -1 <= best_ready(s.take(i as int)) < i,
            decreases len - i,
        {
            proof {
                assert(s.take(i as int + 1).drop_last() =~= s.take(i as int));
                lemma_best_ready(s.take(i as int + 1));
            }
            if self.processes[i].process.state == State::Ready {
                match best {
                    None => {
                        best = Some(i);
                    },
                    Some(b) => {
                        if self.processes[i].virtual_runtime > self.processes[b].virtual_runtime {
                            best = Some(i);
                        }
                    },
                }
            }
            i += 1;
        }
        proof {
            assert(s.take(len as int) =~= s);
        }
        best
    }

    /// The time slice while `waiting` processes wait their turn.
    fn time_slice(&self, waiting: usize) -> (r: u128)
        ensures
            r == share_slice(waiting as nat, self.scheduler_latency(), self.minimum_granularity()),
    {
        assert((waiting as u32) as int == waiting as int % 0x1_0000_0000) by (bit_vector);
        let n = waiting as u32;
        let share = if n == 0 {
            self.scheduler_latency
        } else {
            self.scheduler_latency / (n as u128)
        };
        if share >= self.minimum_granularity {
            share
        } else {
            self.minimum_granularity
        }
    }

    /// Switches in, at time `now`, the ready process with the greatest
    /// virtual runtime (the earliest among equals): it leaves the
    /// processes, runs, has its saved registers restored into `tf`, and is
    /// returned with its time slice (for the timer). `NoRunnableProcess`
    /// (and `tf` as it was) when no process is ready.
    pub fn schedule_in(&mut self, now: u128, tf: &mut TrapFrame) -> (r: Result<(ProcessId, u128), SchedulerError>)
        ensures
            scheduled_in(
                old(self).running(),
                old(self).processes(),
                final(self).running(),
                final(self).processes(),
                *old(tf),
                *final(tf),
                old(self).scheduler_latency(),
                old(self).minimum_granularity(),
                now,
                r,
            ),
            final(self).scheduler_latency() == old(self).scheduler_latency(),
            final(self).minimum_granularity() == old(self).minimum_granularity(),
    {
        proof {
            lemma_best_ready(self.processes());
        }
        let index = match self.best_index() {
            Some(index) => index,
            None => return Err(SchedulerError::NoRunnableProcess),
        };
        let mut information = self.processes.remove(index);
        information.process.state = State::Running;
        let id = information.id;
        *tf = information.process.context;
        self.running.push(RunningShare { information, scheduled_in_at: now });
        let slice = self.time_slice(self.processes.len());
        proof {
            assert(self.running().drop_last() =~= old(self).running());
        }
        Ok((id, slice))
    }

    /// Each held process whose id is `parent` records its own id among its
    /// dead children.
    fn notify_parent(&mut self, parent: ProcessId)
        ensures
            notified_running(old(self).running(), final(self).running(), Some(parent)),
            notified_share(old(self).processes(), final(self).processes(), Some(parent)),
            final(self).scheduler_latency() == old(self).scheduler_latency(),
            final(self).minimum_granularity() == old(self).minimum_granularity(),
    {
        let len = self.running.len();
        let mut i: usize = 0;
        while i < len
            invariant
                len == old(self).running().len(),
                i <= len,
                self.running().len() == len,
                self.processes() == old(self).processes(),
                self.scheduler_latency() == old(self).scheduler_latency(),
                self.minimum_granularity() == old(self).minimum_granularity(),
                forall|j: int| i <= j < len ==> #[trigger] self.running()[j] == old(self).running()[j],
                forall|j: int| 0 <= j < i ==> {
                    let b = #[trigger] old(self).running()[j];
                    let a = self.running()[j];
                    &&& Some(parent) != Some(b.information.id) ==> a == b
                    &&& Some(parent) == Some(b.information.id) ==> a.scheduled_in_at == b.scheduled_in_at
                        && a.information.id == b.information.id && a.information.virtual_runtime
                        == b.information.virtual_runtime && a.information.process.context
                        == b.information.process.context && a.information.process.state
                        == b.information.process.state && a.information.process.parent
                        == b.information.process.parent && a.information.process.dead_children@
                        == b.information.process.dead_children@.push(b.information.id)
                },
            decreases len - i,
        {
            if self.running[i].information.id == parent {
                let ghost before = self.running();
                let mut entry = self.running.remove(i);
                let id = entry.information.id;
                entry.information.process.dead_children.push(id);
                self.running.insert(i, entry);
                proof {
                    assert forall|j: int| 0 <= j < len && j != i implies #[trigger] self.running()[j] == before[j] by {}
                }
            }
            i += 1;
        }
        let len = self.processes.len();
        let mut i: usize = 0;
        let ghost running_done = self.running();
        while i < len
            invariant
                len == old(self).processes().len(),
                i <= len,
                self.processes().len() == len,
                self.running() == running_done,
                self.scheduler_latency() == old(self).scheduler_latency(),
                self.minimum_granularity() == old(self).minimum_granularity(),
                forall|j: int| i <= j < len ==> #[trigger] self.processes()[j] == old(self).processes()[j],
                forall|j: int| 0 <= j < i ==> {
                    let b = #[trigger] old(self).processes()[j];
                    let a = self.processes()[j];
                    &&& Some(parent) != Some(b.id) ==> a == b
                    &&& Some(parent) == Some(b.id) ==> a.id == b.id && a.virtual_runtime == b.virtual_runtime
                        && a.process.context == b.process.context && a.process.state == b.process.state && a.process.parent == b.process.parent
                        && a.process.dead_children@ == b.process.dead_children@.push(b.id)
                },
            decreases len - i,
        {
            if self.processes[i].id == parent {
                let ghost before = self.processes();
                let mut entry = self.processes.remove(i);
                let id = entry.id;
                entry.process.dead_children.push(id);
                self.processes.insert(i, entry);
                proof {
                    assert forall|j: int| 0 <= j < len && j != i implies #[trigger] self.processes()[j] == before[j] by {}
                }
            }
            i += 1;
        }
    }

    /// Switches the running process whose id is in `tf`'s thread-id
    /// register out into `state` at time `now`, saving its registers from
    /// `tf`, and switches in the next process, restoring its registers into
    /// `tf`. A dead process is dropped, and each held process whose id is
    /// its parent's records its own id among its dead children; any other
    /// process waits again at the end of the processes. `ProcessNotFound`
    /// (and no change) when the process is not running; otherwise the
    /// result of switching in.
    pub fn switch(&mut self, tf: &mut TrapFrame, state: State, now: u128) -> (r: Result<(ProcessId, u128), SchedulerError>)
        requires
            forall|i: int| 0 <= i < old(self).running().len() ==> ({
                let e = #[trigger] old(self).running()[i];
                e.scheduled_in_at <= now && e.information.virtual_runtime + (now - e.scheduled_in_at) / (NANOS_PER_MICRO as int) <= u128::MAX
            }),
        ensures
            ({
                let s = old(self).running();
                let i = running_index(s, ProcessId(old(tf).tpidr), 0);
                &&& i >= s.len() ==> r == Err::<(ProcessId, u128), SchedulerError>(SchedulerError::ProcessNotFound)
                    && final(self).running() == s && final(self).processes() == old(self).processes()
                    && *final(tf) == *old(tf)
                &&& i < s.len() ==> exists|mid_running: Seq<RunningShare>, mid_processes: Seq<ShareProcess>| {
                    let out = switched_share(s[i], state, now, *old(tf));
                    &&& state == State::Dead ==> notified_running(s.remove(i), mid_running, out.process.parent)
                        && notified_share(old(self).processes(), mid_processes, out.process.parent)
                    &&& state != State::Dead ==> mid_running == s.remove(i) && mid_processes
                        == old(self).processes().push(out)
                    &&& #[trigger] scheduled_in(
                        mid_running,
                        mid_processes,
                        final(self).running(),
                        final(self).processes(),
                        *old(tf),
                        *final(tf),
                        old(self).scheduler_latency(),
                        old(self).minimum_granularity(),
                        now,
                        r,
                    )
                }
            }),
            final(self).scheduler_latency() == old(self).scheduler_latency(),
            final(self).minimum_granularity() == old(self).minimum_granularity(),
    {
        proof {
            lemma_running_index(self.running(), ProcessId(tf.tpidr), 0);
        }
        let ghost tf0 = *tf;
        let is_dying = state == State::Dead;
        let information = match self.schedule_out(tf, state, now) {
            Ok(information) => information,
            Err(e) => return Err(e),
        };
        if is_dying {
            match information.process.parent {
                Some(parent) => self.notify_parent(parent),
                None => {},
            }
        } else {
            self.processes.push(information);
        }
        let ghost mid_running = self.running();
        let ghost mid_processes = self.processes();
        proof {
            let s = old(self).running();
            let i = running_index(s, ProcessId(tf0.tpidr), 0);
            let out = switched_share(s[i], state, now, tf0);
            assert(information == out);
            if is_dying && information.process.parent is None {
                assert(notified_running(s.remove(i), mid_running, out.process.parent));
                assert(notified_share(old(self).processes(), mid_processes, out.process.parent));
            }
        }
        let r = self.schedule_in(now, tf);
        proof {
            assert(scheduled_in(
                mid_running,
                mid_processes,
                self.running(),
                self.processes(),
                tf0,
                *tf,
                old(self).scheduler_latency(),
                old(self).minimum_granularity(),
                now,
                r,
            ));
        }
        r
    }

    /// Takes the running process whose id is in `tf`'s thread-id register
    /// out as dead at time `now` (its registers saved from `tf`), switches
    /// in the next process (restoring its registers into `tf`), and returns
    /// the dead process; `ProcessNotFound` when the process is not running,
    /// or the error of switching in.
    pub fn remove(&mut self, tf: &mut TrapFrame, now: u128) -> (r: Result<ShareProcess, SchedulerError>)
        requires
            forall|i: int| 0 <= i < old(self).running().len() ==> ({
                let e = #[trigger] old(self).running()[i];
                e.scheduled_in_at <= now && e.information.virtual_runtime + (now - e.scheduled_in_at) / (NANOS_PER_MICRO as int) <= u128::MAX
            }),
        ensures
            ({
                let s = old(self).running();
                let i = running_index(s, ProcessId(old(tf).tpidr), 0);
                &&& i >= s.len() ==> r == Err::<ShareProcess, SchedulerError>(SchedulerError::ProcessNotFound)
                    && final(self).running() == s && final(self).processes() == old(self).processes()
                    && *final(tf) == *old(tf)
                &&& i < s.len() ==> exists|started: Result<(ProcessId, u128), SchedulerError>| {
                    &&& #[trigger] scheduled_in(
                        s.remove(i),
                        old(self).processes(),
                        final(self).running(),
                        final(self).processes(),
                        *old(tf),
                        *final(tf),
                        old(self).scheduler_latency(),
                        old(self).minimum_granularity(),
                        now,
                        started,
                    )
                    &&& started is Err ==> r == Err::<ShareProcess, SchedulerError>(started->Err_0)
                    &&& started is Ok ==> r == Ok::<ShareProcess, SchedulerError>(
                        switched_share(s[i], State::Dead, now, *old(tf)),
                    )
                }
            }),
            final(self).scheduler_latency() == old(self).scheduler_latency(),
            final(self).minimum_granularity() == old(self).minimum_granularity(),
    {
        proof {
            lemma_running_index(self.running(), ProcessId(tf.tpidr), 0);
        }
        let ghost tf0 = *tf;
        let information = match self.schedule_out(tf, State::Dead, now) {
            Ok(information) => information,
            Err(e) => return Err(e),
        };
        let ghost mid_running = self.running();
        let started = self.schedule_in(now, tf);
        proof {
            assert(scheduled_in(
                mid_running,
                old(self).processes(),
                self.running(),
                self.processes(),
                tf0,
                *tf,
                old(self).scheduler_latency(),
                old(self).minimum_granularity(),
                now,
                started,
            ));
        }
        match started {
            Ok(_) => Ok(information),
            Err(e) => Err(e),
        }
    }
}

} // verus!

verus! {

/// The time slice shares the latency among the processes left waiting: with
/// `n` of them (fewer than 2^32, and at least one) it is the latency divided
/// by `n`, but never less than the minimum granularity; with none it is the
/// whole latency (or the granularity, when that is larger). So the slice
/// never grows as more processes wait.
pub proof fn lemma_share_slice_divides_latency(n: nat, m: nat, latency: u128, granularity: u128)
    requires
        n <= m < 0x1_0000_0000,
    ensures
        0 < n ==> share_slice(n, latency, granularity) as int == if latency as int / n as int >= granularity {
            latency as int / n as int
        } else {
            granularity as int
        },
        n == 0 ==> share_slice(n, latency, granularity) as int == if latency >= granularity {
            latency as int
        } else {
            granularity as int
        },
        0 < n ==> share_slice(m, latency, granularity) <= share_slice(n, latency, granularity),
        share_slice(n, latency, granularity) >= granularity,
{
    if 0 < n {
        assert(latency as int / m as int <= latency as int / n as int) by {
            vstd::arithmetic::div_mod::lemma_div_is_ordered_by_denominator(latency as int, n as int, m as int);
        }
    }
}

/// A process switched in is handed the latency shared among the processes
/// left waiting: on success with `n > 0` processes left (fewer than 2^32) the
/// slice is the latency divided by `n`, but at least the minimum
/// granularity.
pub proof fn lemma_schedule_in_slice(
    running: Seq<RunningShare>,
    processes: Seq<ShareProcess>,
    running2: Seq<RunningShare>,
    processes2: Seq<ShareProcess>,
    tf: TrapFrame,
    tf2: TrapFrame,
    latency: u128,
    granularity: u128,
    now: u128,
    r: Result<(ProcessId, u128), SchedulerError>,
)
    requires
        scheduled_in(running, processes, running2, processes2, tf, tf2, latency, granularity, now, r),
        processes2.len() < 0x1_0000_0000,
    ensures
        r matches Ok((_, slice)) ==> processes2.len() > 0 ==> slice as int == if latency as int
            / processes2.len() as int >= granularity {
            latency as int / processes2.len() as int
        } else {
            granularity as int
        },
        r matches Ok((id, _)) ==> processes2.len() == processes.len() - 1 && exists|i: int|
            0 <= i < processes.len() && processes[i].id == id && processes[i].process.state == State::Ready,
{
    lemma_best_ready(processes);
    if r is Ok {
        let b = best_ready(processes);
        assert(b >= 0);
        lemma_share_slice_divides_latency(processes2.len(), processes2.len(), latency, granularity);
    }
}

} // verus!

