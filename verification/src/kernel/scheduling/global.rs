//! The machine-wide scheduler's bookkeeping: which processes exist, which
//! run, and what the scheduling policies are told about them.
//!
//! The scheduler keeps the ready and waiting processes, the running ones
//! (with the triggers that may switch each out and the time it was
//! switched in), and two policies, round-robin and fair, of which one is
//! active and advises what runs next. Both policies are told everything.

use vstd::prelude::*;

use std::collections::BTreeMap;

use crate::kernel::process::state::{with_tpidr, ScheduledProcess, State};
use crate::kernel::process::ProcessId;
use crate::kernel::scheduling::fair_policy::{
    fair_informed, lemma_entry_index_from, lemma_max_index, max_index, min_runtime, prune,
    start_index, time_slice, FairPolicy, ProcessInformation,
};
use crate::kernel::scheduling::policy::{
    index_of, lemma_index_of_from, requeue, Policy, PolicyInformation,
};
use crate::kernel::scheduling::round_robin_policy::{
    first_ready_from, round_robin_informed, RoundRobinPolicy,
};
use crate::kernel::scheduling::scheduler::{SchedulerError, SwitchCondition, SwitchTrigger};
use crate::kernel::traps::frame::TrapFrame;

verus! {

broadcast use {vstd::std_specs::btree::group_btree_axioms, vstd::laws_cmp::group_laws_cmp};

/// The scheduler's tick: the round-robin quantum, in nanoseconds (10 ms).
pub const TICK: u128 = 10_000_000;

/// The fair policy's scheduler latency, in nanoseconds (48 ms).
pub const FAIR_SCHEDULER_LATENCY: u128 = 48_000_000;

/// The fair policy's minimum granularity, in nanoseconds (6 ms).
pub const FAIR_MINIMUM_GRANULARITY: u128 = 6_000_000;

/// The index of the round-robin policy.
pub const ROUND_ROBIN: usize = 0;

/// The index of the fair policy.
pub const FAIR: usize = 1;

/// A running process: the process, the triggers on which it may be
/// switched out, and when it was switched in (in nanoseconds).
pub struct RunningProcess {
    pub process: ScheduledProcess,
    pub stop_condition: SwitchCondition,
    pub start_time: u128,
}

/// What a request to switch the running process out came to.
#[derive(Copy, Clone, Debug, PartialEq, Eq, Structural)]
pub enum SwitchOutcome {
    /// The process keeps running: its stop condition refused the trigger.
    Continue,
    /// The process keeps running, and the timer that fired must be armed
    /// again.
    ContinueRearmTimer,
    /// The process was switched out; another must be switched in.
    SwitchedOut,
}

/// The scheduler's state.
pub struct SchedulerInformation {
    round_robin: RoundRobinPolicy,
    fair: FairPolicy,
    active_policy: usize,
    last_process_id: Option<ProcessId>,
    processes: BTreeMap<u64, ScheduledProcess>,
    running: BTreeMap<u64, RunningProcess>,
}

/// The id given to the next process after `last`.
pub open spec fn next_process_id(last: Option<ProcessId>) -> ProcessId {
    match last {
        Some(pid) => ProcessId((pid.0 + 1) as u64),
        None => ProcessId(0),
    }
}

/// `q` without the first occurrence of `pid` (unchanged without one).
pub open spec fn remove_first(q: Seq<ProcessId>, pid: ProcessId) -> Seq<ProcessId> {
    let i = index_of(q, pid);
    if i < q.len() {
        q.remove(i)
    } else {
        q
    }
}

/// Whether some ready entry of the fair policy belongs to `pid`.
pub open spec fn has_entry(e: Seq<ProcessInformation>, pid: ProcessId) -> bool {
    exists|j: int| 0 <= j < e.len() && #[trigger] e[j].process_id == pid
}

/// Whether no two entries belong to the same process.
pub open spec fn distinct_entries(e: Seq<ProcessInformation>) -> bool {
    forall|i: int, j: int| 0 <= i < j < e.len() ==> e[i].process_id != e[j].process_id
}

/// Whether no process occurs twice in `q`.
pub open spec fn distinct_ids(q: Seq<ProcessId>) -> bool {
    forall|i: int, j: int| 0 <= i < j < q.len() ==> q[i] != q[j]
}

/// What the round-robin policy advises for queue `q`, waiting set `w` and
/// quantum `quantum`: the first process not waiting, for one quantum.
pub open spec fn round_robin_choice(q: Seq<ProcessId>, w: Set<u64>, quantum: u128) -> Option<(ProcessId, Option<u128>)> {
    let i = first_ready_from(q, w, 0);
    if i < q.len() {
        Some((q[i], Some(quantum)))
    } else {
        None
    }
}

/// What the fair policy advises for pruned entries `e`: the earliest
/// entry with the greatest runtime, for the time slice of all of them.
pub open spec fn fair_choice(e: Seq<ProcessInformation>, latency: u128, granularity: u128) -> Option<(ProcessId, Option<u128>)> {
    if e.len() > 0 {
        Some((e[max_index(e)].process_id, Some(time_slice(e.len(), latency, granularity))))
    } else {
        None
    }
}

/// The processes after `child` died: its parent, if the scheduler holds it
/// as ready or waiting, records `child` among its dead children.
pub open spec fn parent_notified(
    before: Map<u64, ScheduledProcess>,
    after: Map<u64, ScheduledProcess>,
    parent: Option<ProcessId>,
    child: ProcessId,
) -> bool {
    match parent {
        Some(p) if before.contains_key(p.0) => {
            &&& after.dom() == before.dom()
            &&& forall|k: u64| k != p.0 && before.contains_key(k) ==> after[k] == before[k]
            &&& after[p.0].context == before[p.0].context
            &&& after[p.0].state == before[p.0].state
            &&& after[p.0].parent == before[p.0].parent
            &&& after[p.0].dead_children@ == before[p.0].dead_children@.push(child)
        },
        _ => after =~= before,
    }
}

/// Removing an entry of a queue without repetitions leaves one without
/// repetitions, holding the other processes.
pub(crate) proof fn lemma_remove_id(q: Seq<ProcessId>, i: int)
    requires
        distinct_ids(q),
        0 <= i < q.len(),
    ensures
        distinct_ids(q.remove(i)),
        forall|x: ProcessId| q.remove(i).contains(x) <==> (q.contains(x) && x != q[i]),
{
    q.remove_ensures(i);
    let r = q.remove(i);
    assert forall|a: int, b: int| 0 <= a < b < r.len() implies r[a] != r[b] by {
        let a2 = if a < i { a } else { a + 1 };
        let b2 = if b < i { b } else { b + 1 };
        assert(r[a] == q[a2] && r[b] == q[b2]);
    }
    assert forall|x: ProcessId| r.contains(x) <==> (q.contains(x) && x != q[i]) by {
        if r.contains(x) {
            let a = choose|a: int| 0 <= a < r.len() && r[a] == x;
            let a2 = if a < i { a } else { a + 1 };
            assert(q[a2] == x);
        }
        if q.contains(x) && x != q[i] {
            let a = choose|a: int| 0 <= a < q.len() && q[a] == x;
            if a < i {
                assert(r[a] == x);
            } else {
                assert(r[a - 1] == x);
            }
        }
    }
}

/// A process in a queue is found by `index_of`.
pub(crate) proof fn lemma_index_of_contains(q: Seq<ProcessId>, pid: ProcessId)
    ensures
        0 <= index_of(q, pid) <= q.len(),
        q.contains(pid) <==> index_of(q, pid) < q.len(),
        index_of(q, pid) < q.len() ==> q[index_of(q, pid)] == pid,
{
    lemma_index_of_from(q, pid, 0);
    if q.contains(pid) {
        let j = choose|j: int| 0 <= j < q.len() && q[j] == pid;
        assert(index_of(q, pid) <= j);
    }
}

/// Moving a process to the back of a queue without repetitions keeps the
/// queue without repetitions and with the same processes.
pub(crate) proof fn lemma_requeue_ids(q: Seq<ProcessId>, pid: ProcessId)
    requires
        distinct_ids(q),
    ensures
        distinct_ids(requeue(q, pid)),
        forall|x: ProcessId| requeue(q, pid).contains(x) <==> q.contains(x),
{
    lemma_index_of_contains(q, pid);
    let i = index_of(q, pid);
    if i < q.len() {
        lemma_remove_id(q, i);
        let r = q.remove(i);
        let s = r.push(pid);
        assert forall|a: int, b: int| 0 <= a < b < s.len() implies s[a] != s[b] by {
            if b == s.len() - 1 {
                assert(r.contains(s[a]));
            }
        }
        assert forall|x: ProcessId| s.contains(x) <==> q.contains(x) by {
            if s.contains(x) && x != pid {
                let a = choose|a: int| 0 <= a < s.len() && s[a] == x;
                assert(r[a] == x);
                assert(r.contains(x));
            }
            if q.contains(x) {
                if x == pid {
                    assert(s[s.len() - 1] == x);
                } else {
                    let a = choose|a: int| 0 <= a < r.len() && r[a] == x;
                    assert(s[a] == x);
                }
            }
        }
    }
}

/// Removing an entry of the fair policy keeps its entries apart and drops
/// exactly that entry's process.
proof fn lemma_remove_entry(e: Seq<ProcessInformation>, i: int)
    requires
        distinct_entries(e),
        0 <= i < e.len(),
    ensures
        distinct_entries(e.remove(i)),
        forall|pid: ProcessId| has_entry(e.remove(i), pid) <==> (has_entry(e, pid) && pid != e[i].process_id),
        forall|j: int| 0 <= j < e.remove(i).len() ==> has_entry(e, #[trigger] e.remove(i)[j].process_id),
{
    e.remove_ensures(i);
    let r = e.remove(i);
    assert forall|a: int, b: int| 0 <= a < b < r.len() implies r[a].process_id != r[b].process_id by {
        let a2 = if a < i { a } else { a + 1 };
        let b2 = if b < i { b } else { b + 1 };
        assert(r[a] == e[a2] && r[b] == e[b2]);
    }
    assert forall|j: int| 0 <= j < r.len() implies has_entry(e, #[trigger] r[j].process_id) by {
        let j2 = if j < i { j } else { j + 1 };
        assert(r[j] == e[j2]);
    }
    assert forall|pid: ProcessId| has_entry(r, pid) <==> (has_entry(e, pid) && pid != e[i].process_id) by {
        if has_entry(r, pid) {
            let a = choose|a: int| 0 <= a < r.len() && #[trigger] r[a].process_id == pid;
            let a2 = if a < i { a } else { a + 1 };
            assert(e[a2].process_id == pid);
        }
        if has_entry(e, pid) && pid != e[i].process_id {
            let a = choose|a: int| 0 <= a < e.len() && #[trigger] e[a].process_id == pid;
            if a < i {
                assert(r[a].process_id == pid);
            } else {
                assert(r[a - 1].process_id == pid);
            }
        }
    }
}

/// The first process found ready in a round-robin queue is not waiting.
proof fn lemma_first_ready_from(q: Seq<ProcessId>, w: Set<u64>, i: int)
    requires
        0 <= i <= q.len(),
    ensures
        i <= first_ready_from(q, w, i) <= q.len(),
        first_ready_from(q, w, i) < q.len() ==> !w.contains(q[first_ready_from(q, w, i)].0),
    decreases q.len() - i,
{
    if i < q.len() && w.contains(q[i].0) {
        lemma_first_ready_from(q, w, i + 1);
    }
}

/// Pruning drops only entries of removed processes, forgetting them as
/// removed, and leaves a first entry whose process is not removed.
proof fn lemma_prune(e: Seq<ProcessInformation>, d: Set<u64>)
    requires
        distinct_entries(e),
    ensures
        ({
            let (e2, d2) = prune(e, d);
            &&& distinct_entries(e2)
            &&& forall|j: int| 0 <= j < e2.len() ==> has_entry(e, #[trigger] e2[j].process_id)
            &&& forall|pid: ProcessId| has_entry(e, pid) && !d.contains(pid.0) ==> has_entry(e2, pid)
            &&& forall|x: u64| #[trigger] d2.contains(x) ==> d.contains(x)
            &&& forall|j: int| 0 <= j < e2.len() && d.contains(#[trigger] e2[j].process_id.0) ==> d2.contains(e2[j].process_id.0)
            &&& e2.len() > 0 ==> !d2.contains(e2[max_index(e2)].process_id.0)
        }),
    decreases e.len(),
{
    if e.len() > 0 {
        let m = max_index(e);
        lemma_max_index(e);
        if d.contains(e[m].process_id.0) {
            let p = e[m].process_id;
            lemma_remove_entry(e, m);
            let e1 = e.remove(m);
            let d1 = d.remove(p.0);
            lemma_prune(e1, d1);
            let (e2, d2) = prune(e1, d1);
            assert(prune(e, d) == (e2, d2));
            assert forall|j: int| 0 <= j < e2.len() implies has_entry(e, #[trigger] e2[j].process_id) by {
                assert(has_entry(e1, e2[j].process_id));
            }
            assert forall|pid: ProcessId| has_entry(e, pid) && !d.contains(pid.0) implies has_entry(e2, pid) by {
                assert(has_entry(e1, pid));
            }
            assert forall|j: int| 0 <= j < e2.len() && d.contains(#[trigger] e2[j].process_id.0) implies d2.contains(
                e2[j].process_id.0,
            ) by {
                assert(has_entry(e1, e2[j].process_id));
            }
        } else {
            assert forall|j: int| 0 <= j < e.len() implies has_entry(e, #[trigger] e[j].process_id) by {}
        }
    }
}

impl SchedulerInformation {
    /// The round-robin policy.
    pub closed spec fn round_robin(&self) -> RoundRobinPolicy {
        self.round_robin
    }

    /// The fair policy.
    pub closed spec fn fair(&self) -> FairPolicy {
        self.fair
    }

    /// The index of the policy that advises (`ROUND_ROBIN` or `FAIR`).
    pub closed spec fn active_policy(&self) -> usize {
        self.active_policy
    }

    /// The last process id given out.
    pub closed spec fn last_process_id(&self) -> Option<ProcessId> {
        self.last_process_id
    }

    /// The ready and waiting processes, by id.
    pub closed spec fn processes(&self) -> Map<u64, ScheduledProcess> {
        self.processes@
    }

    /// The running processes, by id.
    pub closed spec fn running(&self) -> Map<u64, RunningProcess> {
        self.running@
    }

    /// Whether process id `k` has been given out.
    pub open spec fn issued(&self, k: u64) -> bool {
        self.last_process_id() matches Some(l) && k <= l.0
    }

    /// Whether process `k` is held as ready.
    pub open spec fn is_ready(&self, k: u64) -> bool {
        self.processes().contains_key(k) && self.processes()[k].state == State::Ready
    }

    /// Whether process `k` is held as waiting.
    pub open spec fn is_waiting(&self, k: u64) -> bool {
        self.processes().contains_key(k) && self.processes()[k].state == State::Waiting
    }

    /// The scheduler's invariant: the running processes are apart from the
    /// others, ids are never given twice, and each policy knows exactly
    /// the processes the scheduler holds: the round-robin queue holds each
    /// ready or waiting process once and its waiting set the waiting ones;
    /// the fair policy has one entry for each ready process (and maybe for
    /// processes removed since), the waiting ones among its waiting and
    /// the running ones among its running; and every process held has its
    /// id in its saved thread-id register.
    pub open spec fn wf(&self) -> bool {
        let p = self.processes();
        let r = self.running();
        let q = self.round_robin().queue();
        let e = self.fair().processes();
        let d = self.fair().removed();
        &&& forall|k: u64| p.contains_key(k) ==> !r.contains_key(k)
        &&& forall|k: u64| p.contains_key(k) ==> self.issued(k)
        &&& forall|k: u64| r.contains_key(k) ==> self.issued(k)
        &&& forall|k: u64| #[trigger] d.contains(k) ==> self.issued(k) && !p.contains_key(k) && !r.contains_key(k)
        &&& forall|k: u64| p.contains_key(k) ==> (p[k].state == State::Ready || p[k].state == State::Waiting)
        &&& distinct_ids(q)
        &&& forall|i: int| 0 <= i < q.len() ==> p.contains_key(#[trigger] q[i].0)
        &&& forall|k: u64| p.contains_key(k) ==> q.contains(ProcessId(k))
        &&& forall|k: u64| #[trigger] self.round_robin().waiting().contains(k) <==> self.is_waiting(k)
        &&& forall|k: u64| #[trigger] self.fair().running().contains_key(k) <==> r.contains_key(k)
        &&& forall|k: u64| #[trigger] self.fair().waiting().contains_key(k) <==> self.is_waiting(k)
        &&& distinct_entries(e)
        &&& forall|i: int| 0 <= i < e.len() ==> d.contains(#[trigger] e[i].process_id.0) || self.is_ready(e[i].process_id.0)
        &&& forall|k: u64| self.is_ready(k) ==> has_entry(e, ProcessId(k))
        &&& forall|k: u64| #[trigger] p.contains_key(k) ==> p[k].context.tpidr == k
        &&& forall|k: u64| #[trigger] r.contains_key(k) ==> r[k].process.context.tpidr == k
    }

    /// A scheduler with no processes, a round-robin policy with one tick
    /// per turn, and the fair policy (48 ms latency, 6 ms granularity),
    /// which is active.
    pub fn new() -> (r: Self)
        ensures
            r.wf(),
            r.active_policy() == FAIR,
            r.last_process_id() is None,
            r.processes() == Map::<u64, ScheduledProcess>::empty(),
            r.running() == Map::<u64, RunningProcess>::empty(),
            r.round_robin().queue() == Seq::<ProcessId>::empty(),
            r.round_robin().waiting() == Set::<u64>::empty(),
            r.round_robin().quantum() == TICK,
            r.fair().processes() == Seq::<ProcessInformation>::empty(),
            r.fair().waiting() == Map::<u64, u128>::empty(),
            r.fair().running() == Map::<u64, u128>::empty(),
            r.fair().removed() == Set::<u64>::empty(),
            r.fair().scheduler_latency() == FAIR_SCHEDULER_LATENCY,
            r.fair().minimum_granularity() == FAIR_MINIMUM_GRANULARITY,
    {
        let r = SchedulerInformation {
            round_robin: RoundRobinPolicy::new(TICK),
            fair: FairPolicy::new(FAIR_SCHEDULER_LATENCY, FAIR_MINIMUM_GRANULARITY),
            active_policy: FAIR,
            last_process_id: None,
            processes: BTreeMap::new(),
            running: BTreeMap::new(),
        };
        r
    }

    /// Gives out the next process id: 0 first, then one more each time.
    pub fn allocate_process_id(&mut self) -> (r: ProcessId)
        requires
            old(self).last_process_id() != Some(ProcessId(u64::MAX)),
        ensures
            r == next_process_id(old(self).last_process_id()),
            final(self).last_process_id() == Some(r),
            final(self).round_robin() == old(self).round_robin(),
            final(self).fair() == old(self).fair(),
            final(self).active_policy() == old(self).active_policy(),
            final(self).processes() == old(self).processes(),
            final(self).running() == old(self).running(),
    {
        let pid = match self.last_process_id {
            Some(pid) => ProcessId(pid.0 + 1),
            None => ProcessId(0),
        };
        self.last_process_id = Some(pid);
        pid
    }

    /// Adds a new process: it gets the next id (also written into its
    /// thread-id register), joins the ready processes,
    /// goes to the front of the round-robin queue, and joins the fair
    /// policy with the least runtime among its ready processes.
    pub fn add(&mut self, process: ScheduledProcess) -> (r: ProcessId)
        requires
            old(self).wf(),
            process.state == State::Ready,
            old(self).last_process_id() != Some(ProcessId(u64::MAX)),
        ensures
            final(self).wf(),
            r == next_process_id(old(self).last_process_id()),
            final(self).last_process_id() == Some(r),
            final(self).processes() == old(self).processes().insert(r.0, with_tpidr(process, r)),
            final(self).running() == old(self).running(),
            final(self).active_policy() == old(self).active_policy(),
            final(self).round_robin().queue() == seq![r] + old(self).round_robin().queue(),
            final(self).round_robin().waiting() == old(self).round_robin().waiting(),
            final(self).round_robin().quantum() == old(self).round_robin().quantum(),
            final(self).fair().processes() == old(self).fair().processes().push(
                ProcessInformation { process_id: r, runtime: min_runtime(old(self).fair().processes()) },
            ),
            final(self).fair().waiting() == old(self).fair().waiting(),
            final(self).fair().running() == old(self).fair().running(),
            final(self).fair().removed() == old(self).fair().removed(),
            final(self).fair().scheduler_latency() == old(self).fair().scheduler_latency(),
            final(self).fair().minimum_granularity() == old(self).fair().minimum_granularity(),
    {
        let ghost before = *self;
        let process_id = self.allocate_process_id();
        let mut process = process;
        process.context.tpidr = process_id.0;
        proof {
            let q0 = before.round_robin().queue();
            let e0 = before.fair().processes();
            assert(!before.issued(process_id.0));
            assert(!q0.contains(process_id)) by {
                if q0.contains(process_id) {
                    let j = choose|j: int| 0 <= j < q0.len() && q0[j] == process_id;
                    assert(before.processes().contains_key(q0[j].0));
                }
            }
            assert forall|j: int| 0 <= j < e0.len() implies #[trigger] e0[j].process_id != process_id by {
                assert(before.fair().removed().contains(e0[j].process_id.0) || before.is_ready(e0[j].process_id.0));
            }
            assert(!before.fair().waiting().contains_key(process_id.0));
            assert(!before.fair().running().contains_key(process_id.0));
        }
        self.processes.insert(process_id.0, process);
        self.round_robin.insert(process_id);
        self.fair.insert(process_id);
        proof {
            let p = self.processes();
            let q0 = before.round_robin().queue();
            let q = self.round_robin().queue();
            let e0 = before.fair().processes();
            let e = self.fair().processes();
            if before.processes().contains_key(process_id.0) {
                assert(before.issued(process_id.0));
                assert(false);
            }
            assert(!q0.contains(process_id));
            assert forall|i: int, j: int| 0 <= i < j < q.len() implies q[i] != q[j] by {
                if i == 0 {
                    assert(q[j] == q0[j - 1]);
                } else {
                    assert(q[i] == q0[i - 1] && q[j] == q0[j - 1]);
                }
            }
            assert forall|i: int| 0 <= i < q.len() implies p.contains_key(#[trigger] q[i].0) by {
                if i > 0 {
                    assert(q[i] == q0[i - 1]);
                }
            }
            assert forall|k: u64| p.contains_key(k) implies q.contains(ProcessId(k)) by {
                if k == process_id.0 {
                    assert(q[0] == ProcessId(k));
                } else {
                    let i = choose|i: int| 0 <= i < q0.len() && q0[i] == ProcessId(k);
                    assert(q[i + 1] == ProcessId(k));
                }
            }
            assert forall|i: int, j: int| 0 <= i < j < e.len() implies e[i].process_id != e[j].process_id by {
                if j == e.len() - 1 {
                    assert(e[i] == e0[i]);
                    assert(before.issued(e0[i].process_id.0));
                }
            }
            assert forall|k: u64| self.is_ready(k) implies has_entry(e, ProcessId(k)) by {
                if k == process_id.0 {
                    assert(e[e.len() - 1].process_id == ProcessId(k));
                } else {
                    assert(before.is_ready(k));
                    let j = choose|j: int| 0 <= j < e0.len() && #[trigger] e0[j].process_id == ProcessId(k);
                    assert(e[j].process_id == ProcessId(k));
                }
            }
            assert forall|i: int| 0 <= i < e.len() implies self.fair().removed().contains(
                #[trigger] e[i].process_id.0,
            ) || self.is_ready(e[i].process_id.0) by {
                if i < e.len() - 1 {
                    assert(e[i] == e0[i]);
                }
            }
            if before.running().contains_key(process_id.0) {
                assert(before.issued(process_id.0));
            }
            assert forall|k: u64| p.contains_key(k) implies self.issued(k) by {
                if k != process_id.0 {
                    assert(before.issued(k));
                }
            }
            let r = self.running();
            let d = self.fair().removed();
            assert forall|k: u64| r.contains_key(k) implies self.issued(k) by {
                assert(before.issued(k));
            }
            assert forall|k: u64| #[trigger] d.contains(k) implies self.issued(k) by {
                assert(before.issued(k));
            }
        }
        process_id
    }

    /// Tells the scheduler that process `process_id` is done waiting (its
    /// poll function said so): a waiting process becomes ready and both
    /// policies are told. Returns whether the process was waiting; if not,
    /// nothing changes.
    pub fn wake(&mut self, process_id: ProcessId) -> (r: bool)
        requires
            old(self).wf(),
        ensures
            final(self).wf(),
            r == old(self).is_waiting(process_id.0),
            !r ==> *final(self) == *old(self),
            r ==> {
                let k = process_id.0;
                let before = old(self).processes()[k];
                &&& final(self).processes() == old(self).processes().insert(
                    k,
                    ScheduledProcess {
                        context: before.context,
                        state: State::Ready,
                        parent: before.parent,
                        dead_children: before.dead_children,
                    },
                )
                &&& final(self).running() == old(self).running()
                &&& final(self).last_process_id() == old(self).last_process_id()
                &&& final(self).active_policy() == old(self).active_policy()
                &&& (final(self).round_robin().queue(), final(self).round_robin().waiting())
                    == round_robin_informed(
                    old(self).round_robin().queue(),
                    old(self).round_robin().waiting(),
                    process_id,
                    PolicyInformation::DoneWaiting,
                )
                &&& final(self).round_robin().quantum() == old(self).round_robin().quantum()
                &&& (final(self).fair().processes(), final(self).fair().waiting(), final(self).fair().running()) == fair_informed(
                    old(self).fair().processes(),
                    old(self).fair().waiting(),
                    old(self).fair().running(),
                    process_id,
                    PolicyInformation::DoneWaiting,
                )
                &&& final(self).fair().removed() == old(self).fair().removed()
                &&& final(self).fair().scheduler_latency() == old(self).fair().scheduler_latency()
                &&& final(self).fair().minimum_granularity() == old(self).fair().minimum_granularity()
            },
    {
        let k = process_id.0;
        let waiting = match self.processes.get(&k) {
            Some(process) => process.state == State::Waiting,
            None => false,
        };
        if !waiting {
            return false;
        }
        let ghost before = *self;
        let mut process = self.processes.remove(&k).unwrap();
        process.state = State::Ready;
        self.processes.insert(k, process);
        let information = PolicyInformation::DoneWaiting;
        self.round_robin.inform(process_id, &information);
        self.fair.inform(process_id, &information);
        proof {
            let p = self.processes();
            let q0 = before.round_robin().queue();
            let q = self.round_robin().queue();
            let e0 = before.fair().processes();
            let e = self.fair().processes();
            lemma_requeue_ids(q0, process_id);
            assert(p.dom() == before.processes().dom());
            assert forall|i: int| 0 <= i < q.len() implies p.contains_key(#[trigger] q[i].0) by {
                assert(q.contains(q[i]));
                assert(q0.contains(q[i]));
                let j = choose|j: int| 0 <= j < q0.len() && q0[j] == q[i];
                assert(before.processes().contains_key(q0[j].0));
            }
            assert forall|k2: u64| p.contains_key(k2) implies q.contains(ProcessId(k2)) by {
                assert(q0.contains(ProcessId(k2)));
            }
            if has_entry(e0, process_id) {
                let j = choose|j: int| 0 <= j < e0.len() && #[trigger] e0[j].process_id == process_id;
                assert(before.fair().removed().contains(e0[j].process_id.0) || before.is_ready(e0[j].process_id.0));
            }
            assert forall|i: int, j: int| 0 <= i < j < e.len() implies e[i].process_id != e[j].process_id by {
                if j == e.len() - 1 {
                    assert(e[i] == e0[i]);
                    assert(e0[i].process_id == process_id ==> has_entry(e0, process_id));
                }
            }
            assert forall|k2: u64| self.is_ready(k2) implies has_entry(e, ProcessId(k2)) by {
                if k2 == k {
                    assert(e[e.len() - 1].process_id == ProcessId(k2));
                } else {
                    assert(before.is_ready(k2));
                    let j = choose|j: int| 0 <= j < e0.len() && #[trigger] e0[j].process_id == ProcessId(k2);
                    assert(e[j].process_id == ProcessId(k2));
                }
            }
            assert forall|i: int| 0 <= i < e.len() implies self.fair().removed().contains(
                #[trigger] e[i].process_id.0,
            ) || self.is_ready(e[i].process_id.0) by {
                if i < e.len() - 1 {
                    assert(e[i] == e0[i]);
                }
            }
            assert forall|k2: u64| p.contains_key(k2) implies self.issued(k2) by {
                assert(before.issued(k2));
            }
            assert forall|k2: u64| self.running().contains_key(k2) implies self.issued(k2) by {
                assert(before.issued(k2));
            }
        }
        true
    }

    /// Asks to switch out the running process whose id is in `tf`'s
    /// thread-id register, for `trigger`, into `state`, at time `now` (in
    /// nanoseconds). If its stop condition refuses the trigger, nothing
    /// changes and the process keeps running (the timer must be armed again
    /// when it was the timer that fired). Otherwise the process stops
    /// running with its registers saved from `tf`, and both policies are
    /// told how long it ran, by which trigger, and whether it now waits; a
    /// ready or waiting process is held again, while a dead one is removed
    /// from the policies and recorded among its parent's dead children.
    pub fn schedule_out(
        &mut self,
        tf: &TrapFrame,
        trigger: SwitchTrigger,
        state: State,
        now: u128,
    ) -> (r: SwitchOutcome)
        requires
            old(self).wf(),
            old(self).running().contains_key(ProcessId(tf.tpidr).0),
            state != State::Running,
            old(self).running()[ProcessId(tf.tpidr).0].stop_condition.accepts(trigger) ==> {
                let start = old(self).running()[ProcessId(tf.tpidr).0].start_time;
                &&& start <= now
                &&& old(self).fair().running()[ProcessId(tf.tpidr).0] + (now - start) <= u128::MAX
            },
        ensures
            final(self).wf(),
            !old(self).running()[ProcessId(tf.tpidr).0].stop_condition.accepts(trigger) ==> {
                &&& *final(self) == *old(self)
                &&& r == (if trigger == SwitchTrigger::Timer {
                    SwitchOutcome::ContinueRearmTimer
                } else {
                    SwitchOutcome::Continue
                })
            },
            old(self).running()[ProcessId(tf.tpidr).0].stop_condition.accepts(trigger) ==> {
                let k = ProcessId(tf.tpidr).0;
                let stopped = old(self).running()[k];
                let information = PolicyInformation::ScheduledOut(
                    (now - stopped.start_time) as u128,
                    trigger,
                    state == State::Waiting,
                );
                let (queue, waiting) = round_robin_informed(
                    old(self).round_robin().queue(),
                    old(self).round_robin().waiting(),
                    ProcessId(tf.tpidr),
                    information,
                );
                &&& r == SwitchOutcome::SwitchedOut
                &&& final(self).running() == old(self).running().remove(k)
                &&& state == State::Dead ==> {
                    &&& final(self).round_robin().queue() == remove_first(queue, ProcessId(tf.tpidr))
                    &&& final(self).fair().removed() == old(self).fair().removed().insert(k)
                    &&& parent_notified(
                        old(self).processes(),
                        final(self).processes(),
                        stopped.process.parent,
                        ProcessId(tf.tpidr),
                    )
                }
                &&& state != State::Dead ==> {
                    &&& final(self).round_robin().queue() == queue
                    &&& final(self).fair().removed() == old(self).fair().removed()
                    &&& final(self).processes() == old(self).processes().insert(
                        k,
                        ScheduledProcess {
                            context: *tf,
                            state,
                            parent: stopped.process.parent,
                            dead_children: stopped.process.dead_children,
                        },
                    )
                }
                &&& final(self).round_robin().waiting() == waiting
                &&& (final(self).fair().processes(), final(self).fair().waiting(), final(self).fair().running())
                    == fair_informed(
                    old(self).fair().processes(),
                    old(self).fair().waiting(),
                    old(self).fair().running(),
                    ProcessId(tf.tpidr),
                    information,
                )
                &&& final(self).last_process_id() == old(self).last_process_id()
                &&& final(self).active_policy() == old(self).active_policy()
                &&& final(self).round_robin().quantum() == old(self).round_robin().quantum()
                &&& final(self).fair().scheduler_latency() == old(self).fair().scheduler_latency()
                &&& final(self).fair().minimum_granularity() == old(self).fair().minimum_granularity()
            },
    {
        let process_id = ProcessId(tf.tpidr);
        let k = process_id.0;
        let accepted = match self.running.get(&k) {
            Some(running) => running.stop_condition.matches(trigger),
            None => false,
        };
        if !accepted {
            return if trigger == SwitchTrigger::Timer {
                SwitchOutcome::ContinueRearmTimer
            } else {
                SwitchOutcome::Continue
            };
        }
        let ghost before = *self;
        let stopped = self.running.remove(&k).unwrap();
        let RunningProcess { process, stop_condition: _, start_time } = stopped;
        let information = PolicyInformation::ScheduledOut(
            now - start_time,
            trigger,
            state == State::Waiting,
        );
        self.round_robin.inform(process_id, &information);
        self.fair.inform(process_id, &information);
        let ghost informed = *self;
        let mut process = process;
        process.state = state;
        process.context = *tf;
        if state == State::Dead {
            self.round_robin.remove(process_id);
            self.fair.remove(process_id);
            match process.parent {
                Some(parent_id) => {
                    match self.processes.remove(&parent_id.0) {
                        Some(mut parent) => {
                            parent.dead_children.push(process_id);
                            self.processes.insert(parent_id.0, parent);
                        },
                        None => {},
                    }
                },
                None => {},
            }
        } else {
            self.processes.insert(k, process);
        }
        proof {
            let p0 = before.processes();
            let p = self.processes();
            let q0 = before.round_robin().queue();
            let q1 = informed.round_robin().queue();
            let q = self.round_robin().queue();
            let e0 = before.fair().processes();
            let e = self.fair().processes();
            assert(!p0.contains_key(k));
            assert(!before.fair().removed().contains(k));
            assert(!q0.contains(process_id)) by {
                if q0.contains(process_id) {
                    let j = choose|j: int| 0 <= j < q0.len() && q0[j] == process_id;
                    assert(p0.contains_key(q0[j].0));
                }
            }
            assert(!has_entry(e0, process_id)) by {
                if has_entry(e0, process_id) {
                    let j = choose|j: int| 0 <= j < e0.len() && #[trigger] e0[j].process_id == process_id;
                    assert(before.fair().removed().contains(e0[j].process_id.0) || before.is_ready(e0[j].process_id.0));
                }
            }
            let qp = q0.push(process_id);
            assert(distinct_ids(qp)) by {
                assert forall|a: int, b: int| 0 <= a < b < qp.len() implies qp[a] != qp[b] by {
                    if b == qp.len() - 1 {
                        assert(q0.contains(qp[a]));
                    }
                }
            }
            lemma_requeue_ids(qp, process_id);
            assert forall|x: ProcessId| q1.contains(x) <==> (q0.contains(x) || x == process_id) by {
                assert(qp.contains(x) <==> (q0.contains(x) || x == process_id)) by {
                    if qp.contains(x) && x != process_id {
                        let a = choose|a: int| 0 <= a < qp.len() && qp[a] == x;
                        assert(q0[a] == x);
                    }
                    if q0.contains(x) {
                        let a = choose|a: int| 0 <= a < q0.len() && q0[a] == x;
                        assert(qp[a] == x);
                    }
                    if x == process_id {
                        assert(qp[qp.len() - 1] == x);
                    }
                }
            }
            if state == State::Dead {
                lemma_index_of_contains(q1, process_id);
                lemma_remove_id(q1, index_of(q1, process_id));
                assert forall|x: ProcessId| q.contains(x) <==> q0.contains(x) by {}
            }
            assert(p.dom() =~= p0.dom() || p.dom() =~= p0.dom().insert(k));
            assert forall|k2: u64| p.contains_key(k2) implies self.issued(k2) by {
                assert(before.issued(k2) || k2 == k);
            }
            assert forall|k2: u64| self.running().contains_key(k2) implies self.issued(k2) by {
                assert(before.issued(k2));
            }
            assert forall|k2: u64| #[trigger] self.fair().removed().contains(k2) implies self.issued(k2) by {
                assert(before.issued(k2) || k2 == k);
            }
            assert forall|i: int| 0 <= i < q.len() implies p.contains_key(#[trigger] q[i].0) by {
                assert(q.contains(q[i]));
                if q[i] != process_id {
                    assert(q0.contains(q[i]));
                    let j = choose|j: int| 0 <= j < q0.len() && q0[j] == q[i];
                    assert(p0.contains_key(q0[j].0));
                }
            }
            assert forall|k2: u64| p.contains_key(k2) implies q.contains(ProcessId(k2)) by {
                if k2 != k {
                    assert(p0.contains_key(k2));
                    assert(q0.contains(ProcessId(k2)));
                }
            }
            assert forall|k2: u64| k2 != k implies (self.is_ready(k2) == before.is_ready(k2)
                && self.is_waiting(k2) == before.is_waiting(k2)) by {
                if p0.contains_key(k2) {
                    assert(p.contains_key(k2));
                }
            }
            assert forall|i: int, j: int| 0 <= i < j < e.len() implies e[i].process_id != e[j].process_id by {
                if j == e.len() - 1 && e.len() > e0.len() {
                    assert(e[i] == e0[i]);
                }
            }
            assert forall|k2: u64| self.is_ready(k2) implies has_entry(e, ProcessId(k2)) by {
                if k2 == k {
                    assert(e[e.len() - 1].process_id == ProcessId(k2));
                } else {
                    assert(before.is_ready(k2));
                    let j = choose|j: int| 0 <= j < e0.len() && #[trigger] e0[j].process_id == ProcessId(k2);
                    assert(e[j].process_id == ProcessId(k2));
                }
            }
            assert forall|i: int| 0 <= i < e.len() implies self.fair().removed().contains(
                #[trigger] e[i].process_id.0,
            ) || self.is_ready(e[i].process_id.0) by {
                if i < e0.len() {
                    assert(e[i] == e0[i]);
                    assert(before.fair().removed().contains(e0[i].process_id.0) || before.is_ready(e0[i].process_id.0));
                }
            }
        }
        SwitchOutcome::SwitchedOut
    }

    /// The process the active policy advises, with the time it may run, in
    /// the scheduler's current state (`None` when there is none).
    pub open spec fn advised(&self) -> Option<(ProcessId, Option<u128>)> {
        if self.active_policy() == ROUND_ROBIN {
            round_robin_choice(
                self.round_robin().queue(),
                self.round_robin().waiting(),
                self.round_robin().quantum(),
            )
        } else {
            fair_choice(
                prune(self.fair().processes(), self.fair().removed()).0,
                self.fair().scheduler_latency(),
                self.fair().minimum_granularity(),
            )
        }
    }

    /// The fair policy's ready entries and removed processes once the
    /// active policy has given its advice (the fair policy first drops
    /// removed processes from its front).
    pub open spec fn fair_after_advice(&self) -> (Seq<ProcessInformation>, Set<u64>) {
        if self.active_policy() == FAIR {
            prune(self.fair().processes(), self.fair().removed())
        } else {
            (self.fair().processes(), self.fair().removed())
        }
    }

    /// Switches in the process the active policy advises, at time `now`
    /// (in nanoseconds), restoring its saved registers into `tf`, and
    /// returns it with the time it may run (for the timer), or `None` (with
    /// `tf` as it was) when no process can run. The process moves as it is
    /// to the running ones (where it is reported as running), with the stop
    /// condition advised, to which switching out by force is added (and by
    /// yielding, when it has no time limit); both policies are told it
    /// started running.
    pub fn schedule_in(&mut self, now: u128, tf: &mut TrapFrame) -> (r: Option<(ProcessId, Option<u128>)>)
        requires
            old(self).wf(),
            old(self).active_policy() == ROUND_ROBIN || old(self).active_policy() == FAIR,
            old(self).active_policy() == FAIR ==> old(self).fair().can_advise(),
        ensures
            final(self).wf(),
            r == old(self).advised(),
            final(self).last_process_id() == old(self).last_process_id(),
            final(self).active_policy() == old(self).active_policy(),
            final(self).round_robin().quantum() == old(self).round_robin().quantum(),
            final(self).fair().scheduler_latency() == old(self).fair().scheduler_latency(),
            final(self).fair().minimum_granularity() == old(self).fair().minimum_granularity(),
            final(self).fair().removed() == old(self).fair_after_advice().1,
            final(self).fair().waiting() == old(self).fair().waiting(),
            r is None ==> {
                &&& *final(tf) == *old(tf)
                &&& final(self).processes() == old(self).processes()
                &&& final(self).running() == old(self).running()
                &&& final(self).round_robin().queue() == old(self).round_robin().queue()
                &&& final(self).round_robin().waiting() == old(self).round_robin().waiting()
                &&& final(self).fair().processes() == old(self).fair_after_advice().0
                &&& final(self).fair().running() == old(self).fair().running()
            },
            r matches Some((process_id, _)) ==> {
                let k = process_id.0;
                let chosen = old(self).processes()[k];
                let started = final(self).running()[k];
                &&& old(self).is_ready(k)
                &&& *final(tf) == chosen.context
                &&& final(self).processes() == old(self).processes().remove(k)
                &&& final(self).running().dom() == old(self).running().dom().insert(k)
                &&& forall|k2: u64| k2 != k && #[trigger] old(self).running().contains_key(k2)
                    ==> final(self).running()[k2] == old(self).running()[k2]
                &&& started.process == chosen
                &&& started.start_time == now
                &&& forall|t: SwitchTrigger| #[trigger] started.stop_condition.accepts(t) <==> (t
                    == SwitchTrigger::Force || t == SwitchTrigger::Yield || (old(self).active_policy()
                    == FAIR && t == SwitchTrigger::Timer))
                &&& (final(self).round_robin().queue(), final(self).round_robin().waiting())
                    == round_robin_informed(
                    old(self).round_robin().queue(),
                    old(self).round_robin().waiting(),
                    process_id,
                    PolicyInformation::StartRunning,
                )
                &&& (final(self).fair().processes(), final(self).fair().waiting(), final(self).fair().running())
                    == fair_informed(
                    old(self).fair_after_advice().0,
                    old(self).fair().waiting(),
                    old(self).fair().running(),
                    process_id,
                    PolicyInformation::StartRunning,
                )
            },
    {
        let ghost before = *self;
        proof {
            lemma_prune(before.fair().processes(), before.fair().removed());
            lemma_first_ready_from(before.round_robin().queue(), before.round_robin().waiting(), 0);
        }
        let advice = if self.active_policy == ROUND_ROBIN {
            self.round_robin.advise()
        } else {
            self.fair.advise()
        };
        let ghost advised = *self;
        let (process_id, runtime, stop_condition) = match advice {
            None => {
                proof {
                    let e0 = before.fair().processes();
                    let e1 = self.fair().processes();
                    let d1 = self.fair().removed();
                    assert forall|k2: u64| #[trigger] d1.contains(k2) implies self.issued(k2) by {
                        assert(before.fair().removed().contains(k2));
                        assert(before.issued(k2));
                    }
                    assert forall|k2: u64| self.processes().contains_key(k2) implies self.issued(k2) by {
                        assert(before.issued(k2));
                    }
                    assert forall|k2: u64| self.running().contains_key(k2) implies self.issued(k2) by {
                        assert(before.issued(k2));
                    }
                    assert forall|k2: u64| self.is_ready(k2) implies has_entry(e1, ProcessId(k2)) by {
                        assert(before.is_ready(k2));
                        assert(has_entry(e0, ProcessId(k2)));
                        assert(!before.fair().removed().contains(k2));
                    }
                    assert forall|i: int| 0 <= i < e1.len() implies d1.contains(#[trigger] e1[i].process_id.0)
                        || self.is_ready(e1[i].process_id.0) by {
                        let x = e1[i].process_id;
                        assert(has_entry(e0, x));
                        let n = choose|n: int| 0 <= n < e0.len() && #[trigger] e0[n].process_id == x;
                        assert(before.fair().removed().contains(e0[n].process_id.0) || before.is_ready(e0[n].process_id.0));
                    }
                }
                return None;
            },
            Some(advice) => (advice.process_id, advice.runtime, advice.stop_condition),
        };
        let k = process_id.0;
        proof {
            let e0 = before.fair().processes();
            let e1 = advised.fair().processes();
            if before.active_policy() == ROUND_ROBIN {
                let q = before.round_robin().queue();
                let i = first_ready_from(q, before.round_robin().waiting(), 0);
                assert(before.processes().contains_key(q[i].0));
            } else {
                lemma_max_index(e1);
                let m = max_index(e1);
                assert(has_entry(e0, e1[m].process_id));
                let n = choose|n: int| 0 <= n < e0.len() && #[trigger] e0[n].process_id == process_id;
                assert(before.fair().removed().contains(e0[n].process_id.0) || before.is_ready(e0[n].process_id.0));
            }
            assert(before.is_ready(k));
        }
        let process = self.processes.remove(&k).unwrap();
        *tf = process.context;
        let mut stop_condition = stop_condition;
        if runtime.is_none() {
            stop_condition = stop_condition.or(SwitchTrigger::Yield);
        }
        stop_condition = stop_condition.or(SwitchTrigger::Force);
        self.running.insert(k, RunningProcess { process, stop_condition, start_time: now });
        let information = PolicyInformation::StartRunning;
        proof {
            let q = self.round_robin().queue();
            lemma_index_of_contains(q, process_id);
            let e1 = self.fair().processes();
            if before.active_policy() == FAIR {
                lemma_max_index(e1);
                assert(e1[max_index(e1)].process_id == process_id);
            }
        }
        self.round_robin.inform(process_id, &information);
        self.fair.inform(process_id, &information);
        proof {
            let p0 = before.processes();
            let p = self.processes();
            let q0 = before.round_robin().queue();
            let q = self.round_robin().queue();
            let e0 = before.fair().processes();
            let e1 = advised.fair().processes();
            let e = self.fair().processes();
            let d1 = advised.fair().removed();
            lemma_index_of_contains(q0, process_id);
            lemma_remove_id(q0, index_of(q0, process_id));
            lemma_requeue_ids(q0.remove(index_of(q0, process_id)), process_id);
            lemma_max_index(e1);
            lemma_entry_index_from(e1, process_id, 0);
            let idx = start_index(e1, process_id);
            assert(0 <= idx < e1.len() && e1[idx].process_id == process_id);
            lemma_remove_entry(e1, idx);
            assert(e == e1.remove(idx));
            assert(!d1.contains(k)) by {
                if before.active_policy() == FAIR {
                    assert(e1[max_index(e1)].process_id == process_id);
                }
            }
            assert forall|k2: u64| p.contains_key(k2) implies self.issued(k2) by {
                assert(before.issued(k2));
            }
            assert forall|k2: u64| self.running().contains_key(k2) implies self.issued(k2) by {
                assert(before.issued(k2));
            }
            assert forall|k2: u64| #[trigger] d1.contains(k2) implies self.issued(k2) && !p.contains_key(k2)
                && !self.running().contains_key(k2) by {
                assert(before.fair().removed().contains(k2));
                assert(before.issued(k2));
            }
            assert forall|i: int| 0 <= i < q.len() implies p.contains_key(#[trigger] q[i].0) by {
                assert(q.contains(q[i]));
                assert(q0.contains(q[i]));
                let j = choose|j: int| 0 <= j < q0.len() && q0[j] == q[i];
                assert(p0.contains_key(q0[j].0));
            }
            assert forall|k2: u64| p.contains_key(k2) implies q.contains(ProcessId(k2)) by {
                assert(q0.contains(ProcessId(k2)));
            }
            assert forall|k2: u64| k2 != k implies (self.is_ready(k2) == before.is_ready(k2)
                && self.is_waiting(k2) == before.is_waiting(k2)) by {}
            assert forall|k2: u64| self.is_ready(k2) implies has_entry(e, ProcessId(k2)) by {
                assert(before.is_ready(k2));
                assert(!before.fair().removed().contains(k2));
                assert(has_entry(e1, ProcessId(k2)));
            }
            assert forall|i: int| 0 <= i < e.len() implies d1.contains(#[trigger] e[i].process_id.0)
                || self.is_ready(e[i].process_id.0) by {
                let x = e[i].process_id;
                assert(has_entry(e1, x));
                let j = choose|j: int| 0 <= j < e1.len() && #[trigger] e1[j].process_id == x;
                assert(has_entry(e0, x));
                let n = choose|n: int| 0 <= n < e0.len() && #[trigger] e0[n].process_id == x;
                assert(before.fair().removed().contains(e0[n].process_id.0) || before.is_ready(e0[n].process_id.0));
                if before.fair().removed().contains(x.0) && before.active_policy() == FAIR {
                    assert(d1.contains(e1[j].process_id.0));
                }
            }
        }
        Some((process_id, runtime))
    }

    /// Makes policy `active_policy` the one that advises.
    pub fn set_active_policy(&mut self, active_policy: usize)
        requires
            old(self).wf(),
        ensures
            final(self).wf(),
            final(self).active_policy() == active_policy,
            final(self).round_robin() == old(self).round_robin(),
            final(self).fair() == old(self).fair(),
            final(self).last_process_id() == old(self).last_process_id(),
            final(self).processes() == old(self).processes(),
            final(self).running() == old(self).running(),
    {
        let ghost before = *self;
        self.active_policy = active_policy;
        proof {
            assert forall|k: u64| self.processes().contains_key(k) implies self.issued(k) by {
                assert(before.issued(k));
            }
            assert forall|k: u64| self.running().contains_key(k) implies self.issued(k) by {
                assert(before.issued(k));
            }
            assert forall|k: u64| #[trigger] self.fair().removed().contains(k) implies self.issued(k) by {
                assert(before.issued(k));
            }
            assert forall|k: u64| self.is_ready(k) == before.is_ready(k) && self.is_waiting(k)
                == before.is_waiting(k) by {}
            assert forall|k: u64| self.is_ready(k) implies has_entry(self.fair().processes(), ProcessId(k)) by {
                assert(before.is_ready(k));
            }
        }
    }

    /// Stores `tf` as the saved registers of the process whose id is in
    /// its thread-id register, held as ready, waiting or running (as is
    /// done before the kernel acts on a process for one of its calls);
    /// `ProcessNotFound`, and no change, when no such process is held.
    pub fn save_context(&mut self, tf: &TrapFrame) -> (r: Result<(), SchedulerError>)
        requires
            old(self).wf(),
        ensures
            final(self).wf(),
            final(self).round_robin() == old(self).round_robin(),
            final(self).fair() == old(self).fair(),
            final(self).active_policy() == old(self).active_policy(),
            final(self).last_process_id() == old(self).last_process_id(),
            ({
                let k = tf.tpidr;
                &&& old(self).processes().contains_key(k) ==> {
                    &&& r is Ok
                    &&& final(self).processes() == old(self).processes().insert(
                        k,
                        ScheduledProcess { context: *tf, ..old(self).processes()[k] },
                    )
                    &&& final(self).running() == old(self).running()
                }
                &&& old(self).running().contains_key(k) ==> {
                    &&& r is Ok
                    &&& final(self).running() == old(self).running().insert(
                        k,
                        RunningProcess {
                            process: ScheduledProcess { context: *tf, ..old(self).running()[k].process },
                            ..old(self).running()[k]
                        },
                    )
                    &&& final(self).processes() == old(self).processes()
                }
                &&& !old(self).processes().contains_key(k) && !old(self).running().contains_key(k) ==> r
                    == Err::<(), SchedulerError>(SchedulerError::ProcessNotFound) && *final(self) == *old(self)
            }),
    {
        let ghost before = *self;
        let k = tf.tpidr;
        if !self.processes.contains_key(&k) && !self.running.contains_key(&k) {
            return Err(SchedulerError::ProcessNotFound);
        }
        match self.processes.remove(&k) {
            Some(mut process) => {
                process.context = *tf;
                self.processes.insert(k, process);
                proof {
                    assert(self.processes() =~= before.processes().insert(
                        k,
                        ScheduledProcess { context: *tf, ..before.processes()[k] },
                    ));
                    assert forall|k2: u64| self.processes().contains_key(k2) implies self.issued(k2) by {
                        assert(before.issued(k2));
                    }
                    assert forall|k2: u64| self.running().contains_key(k2) implies self.issued(k2) by {
                        assert(before.issued(k2));
                    }
                    assert forall|k2: u64| #[trigger] self.fair().removed().contains(k2) implies self.issued(k2) by {
                        assert(before.issued(k2));
                    }
                    assert forall|k2: u64| self.is_ready(k2) == before.is_ready(k2) && self.is_waiting(k2)
                        == before.is_waiting(k2) by {}
                    assert forall|k2: u64| self.is_ready(k2) implies has_entry(self.fair().processes(), ProcessId(k2)) by {
                        assert(before.is_ready(k2));
                    }
                }
                return Ok(());
            },
            None => {},
        }
        match self.running.remove(&k) {
            Some(mut running) => {
                running.process.context = *tf;
                self.running.insert(k, running);
                proof {
                    assert(self.running() =~= before.running().insert(
                        k,
                        RunningProcess {
                            process: ScheduledProcess { context: *tf, ..before.running()[k].process },
                            ..before.running()[k]
                        },
                    ));
                    assert(self.processes() =~= before.processes());
                    assert forall|k2: u64| self.processes().contains_key(k2) implies self.issued(k2) by {
                        assert(before.issued(k2));
                    }
                    assert forall|k2: u64| self.running().contains_key(k2) implies self.issued(k2) by {
                        assert(before.issued(k2));
                    }
                    assert forall|k2: u64| #[trigger] self.fair().removed().contains(k2) implies self.issued(k2) by {
                        assert(before.issued(k2));
                    }
                    assert forall|k2: u64| self.is_ready(k2) implies has_entry(self.fair().processes(), ProcessId(k2)) by {
                        assert(before.is_ready(k2));
                    }
                }
                Ok(())
            },
            None => Err(SchedulerError::ProcessNotFound),
        }
    }

    /// The saved registers of process `process_id`, held as ready, waiting
    /// or running (`None` when no such process is held).
    pub fn saved_context(&self, process_id: ProcessId) -> (r: Option<TrapFrame>)
        requires
            self.wf(),
        ensures
            self.processes().contains_key(process_id.0) ==> r == Some(self.processes()[process_id.0].context),
            self.running().contains_key(process_id.0) ==> r == Some(self.running()[process_id.0].process.context),
            !self.processes().contains_key(process_id.0) && !self.running().contains_key(process_id.0)
                ==> r is None,
    {
        match self.processes.get(&process_id.0) {
            Some(process) => Some(process.context),
            None => match self.running.get(&process_id.0) {
                Some(running) => Some(running.process.context),
                None => None,
            },
        }
    }

    /// The state of process `process_id`: as held when it is ready or
    /// waiting, `Running` when it runs, and `None` when the scheduler does
    /// not hold it.
    pub fn process_state(&self, process_id: ProcessId) -> (r: Option<State>)
        requires
            self.wf(),
        ensures
            self.processes().contains_key(process_id.0) ==> r == Some(self.processes()[process_id.0].state),
            self.running().contains_key(process_id.0) ==> r == Some(State::Running),
            !self.processes().contains_key(process_id.0) && !self.running().contains_key(process_id.0)
                ==> r is None,
    {
        match self.processes.get(&process_id.0) {
            Some(process) => Some(process.state),
            None => {
                if self.running.contains_key(&process_id.0) {
                    Some(State::Running)
                } else {
                    None
                }
            },
        }
    }

    /// The children of ready or waiting process `process_id` that it has
    /// seen die, in order of death (`None` when no such process is held).
    pub fn dead_children(&self, process_id: ProcessId) -> (r: Option<Vec<ProcessId>>)
        ensures
            self.processes().contains_key(process_id.0) ==> (r matches Some(v) && v@
                == self.processes()[process_id.0].dead_children@),
            !self.processes().contains_key(process_id.0) ==> r is None,
    {
        match self.processes.get(&process_id.0) {
            Some(process) => {
                let mut children: Vec<ProcessId> = Vec::new();
                let mut i: usize = 0;
                while i < process.dead_children.len()
                    invariant
                        i <= process.dead_children.len(),
                        children@ == process.dead_children@.take(i as int),
                    decreases process.dead_children.len() - i,
                {
                    children.push(process.dead_children[i]);
                    proof {
                        assert(process.dead_children@.take(i as int + 1) =~= process.dead_children@.take(i as int).push(process.dead_children@[i as int]));
                    }
                    i += 1;
                }
                proof {
                    assert(process.dead_children@.take(i as int) =~= process.dead_children@);
                }
                Some(children)
            },
            None => None,
        }
    }
}

} // verus!

verus! {

/// Round-robin turns: a process that is switched in and then switched out
/// without waiting leaves its place in the queue for the back, and the
/// waiting set stays as it was.
pub proof fn lemma_round_robin_turn(
    q: Seq<ProcessId>,
    w: Set<u64>,
    pid: ProcessId,
    ran: u128,
    trigger: SwitchTrigger,
)
    requires
        distinct_ids(q),
        q.contains(pid),
    ensures
        ({
            let (q1, w1) = round_robin_informed(q, w, pid, PolicyInformation::StartRunning);
            let (q2, w2) = round_robin_informed(q1, w1, pid, PolicyInformation::ScheduledOut(ran, trigger, false));
            &&& q2 == remove_first(q, pid).push(pid)
            &&& w2 == w
        }),
{
    lemma_index_of_contains(q, pid);
    let i = index_of(q, pid);
    lemma_remove_id(q, i);
    let q1 = q.remove(i);
    lemma_index_of_contains(q1, pid);
    assert(requeue(q1, pid) == q1);
    let qp = q1.push(pid);
    lemma_index_of_from(qp, pid, 0);
    let j = index_of(qp, pid);
    assert(qp[qp.len() - 1] == pid);
    assert(j == qp.len() - 1) by {
        if j < qp.len() - 1 {
            assert(qp[j] == q1[j]);
            assert(q1.contains(pid));
        }
    }
    assert(qp.remove(j) =~= q1);
    assert(round_robin_informed(q, w, pid, PolicyInformation::StartRunning) == (q1, w));
}

/// Fair turns: a process that is switched in and then switched out after
/// running for `ran` nanoseconds, without waiting, is ready again at the
/// back with `ran` added to its runtime, and the policy's running and
/// waiting processes are as they were.
pub proof fn lemma_fair_turn(
    e: Seq<ProcessInformation>,
    waiting: Map<u64, u128>,
    running: Map<u64, u128>,
    pid: ProcessId,
    ran: u128,
    trigger: SwitchTrigger,
)
    requires
        has_entry(e, pid),
        !running.contains_key(pid.0),
    ensures
        ({
            let k = start_index(e, pid);
            let (e1, w1, r1) = fair_informed(e, waiting, running, pid, PolicyInformation::StartRunning);
            let (e2, w2, r2) = fair_informed(e1, w1, r1, pid, PolicyInformation::ScheduledOut(ran, trigger, false));
            &&& 0 <= k < e.len()
            &&& e[k].process_id == pid
            &&& e2 == e.remove(k).push(
                ProcessInformation { process_id: pid, runtime: (e[k].runtime + ran) as u128 },
            )
            &&& w2 == waiting
            &&& r2 == running
        }),
{
    lemma_max_index(e);
    lemma_entry_index_from(e, pid, 0);
    let k = start_index(e, pid);
    let r1 = running.insert(pid.0, e[k].runtime);
    assert(r1.remove(pid.0) =~= running);
}

} // verus!
