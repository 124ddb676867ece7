use vstd::prelude::*;

use std::collections::{BTreeMap, BTreeSet};

use crate::kernel::process::ProcessId;
use crate::kernel::scheduling::policy::{condition_is, Policy, PolicyAdvice, PolicyInformation};
use crate::kernel::scheduling::scheduler::{SwitchCondition, SwitchTrigger};

verus! {

broadcast use {vstd::std_specs::btree::group_btree_axioms, vstd::laws_cmp::group_laws_cmp};

/// A process that is ready to run, with the time (in nanoseconds) it has
/// run so far.
#[derive(Copy, Clone, Debug, PartialEq, Eq, Structural)]
pub struct ProcessInformation {
    pub process_id: ProcessId,
    pub runtime: u128,
}

/// A fair policy: ready processes are ordered by how long they have run,
/// and the time slice shrinks with their number (down to a minimum).
///
/// The ready processes are kept in arrival order; the one the policy
/// regards as first is the earliest one with the greatest runtime.
pub struct FairPolicy {
    processes: Vec<ProcessInformation>,
    waiting: BTreeMap<u64, u128>,
    running: BTreeMap<u64, u128>,
    removed: BTreeSet<u64>,
    scheduler_latency: u128,
    minimum_granularity: u128,
}

/// The index of the earliest entry with the greatest runtime (0 when empty).
pub open spec fn max_index(s: Seq<ProcessInformation>) -> int
    decreases s.len(),
{
    if s.len() <= 1 {
        0
    } else {
        let m = max_index(s.drop_last());
        if s.last().runtime > s[m].runtime {
            s.len() - 1
        } else {
            m
        }
    }
}

/// The least runtime of the entries (0 when there are none).
pub open spec fn min_runtime(s: Seq<ProcessInformation>) -> u128
    decreases s.len(),
{
    if s.len() == 0 {
        0
    } else if s.len() == 1 {
        s[0].runtime
    } else {
        let m = min_runtime(s.drop_last());
        if s.last().runtime < m {
            s.last().runtime
        } else {
            m
        }
    }
}

/// The time slice for `count` ready processes: the scheduler latency shared
/// among them (the count taken as a 32-bit number), but never less than the
/// minimum granularity; the minimum granularity when there are none.
pub open spec fn time_slice(count: nat, latency: u128, granularity: u128) -> u128 {
    if count == 0 {
        granularity
    } else {
        let share = (latency / ((count % 0x1_0000_0000) as u128)) as u128;
        if granularity >= share {
            granularity
        } else {
            share
        }
    }
}

/// The index of the entry a switched-in process is taken from: the first
/// entry when it belongs to the process, else the process's earliest entry.
pub open spec fn start_index(s: Seq<ProcessInformation>, pid: ProcessId) -> int {
    if s[max_index(s)].process_id == pid {
        max_index(s)
    } else {
        entry_index_from(s, pid, 0)
    }
}

/// The index of the earliest entry of `pid` from `i` on (or the length).
pub open spec fn entry_index_from(s: Seq<ProcessInformation>, pid: ProcessId, i: int) -> int
    decreases s.len() - i,
{
    if i < 0 || i >= s.len() {
        s.len() as int
    } else if s[i].process_id == pid {
        i
    } else {
        entry_index_from(s, pid, i + 1)
    }
}

/// Dropping removed processes from the front: while the first entry
/// belongs to a removed process, that entry is dropped and the process is
/// forgotten as removed.
pub open spec fn prune(s: Seq<ProcessInformation>, removed: Set<u64>) -> (Seq<ProcessInformation>, Set<u64>)
    decreases s.len(),
{
    if s.len() == 0 {
        (s, removed)
    } else {
        let m = max_index(s);
        if removed.contains(s[m].process_id.0) {
            proof {
                lemma_max_index(s);
            }
            prune(s.remove(m), removed.remove(s[m].process_id.0))
        } else {
            (s, removed)
        }
    }
}

/// The entry the policy regards as first has the greatest runtime.
pub proof fn lemma_max_index(s: Seq<ProcessInformation>)
    ensures
        s.len() > 0 ==> 0 <= max_index(s) < s.len(),
        s.len() > 0 ==> forall|j: int| 0 <= j < s.len() ==> #[trigger] s[j].runtime <= s[max_index(s)].runtime,
    decreases s.len(),
{
    if s.len() > 1 {
        lemma_max_index(s.drop_last());
        assert forall|j: int| 0 <= j < s.len() implies #[trigger] s[j].runtime <= s[max_index(s)].runtime by {
            if j < s.len() - 1 {
                assert(s[j] == s.drop_last()[j]);
            }
        }
    }
}

pub proof fn lemma_entry_index_from(s: Seq<ProcessInformation>, pid: ProcessId, i: int)
    requires
        0 <= i <= s.len(),
    ensures
        i <= entry_index_from(s, pid, i) <= s.len(),
        entry_index_from(s, pid, i) < s.len() ==> s[entry_index_from(s, pid, i)].process_id == pid,
        (exists|j: int| i <= j < s.len() && s[j].process_id == pid) ==> entry_index_from(s, pid, i)
            < s.len(),
    decreases s.len() - i,
{
    if i < s.len() && s[i].process_id != pid {
        lemma_entry_index_from(s, pid, i + 1);
        if exists|j: int| i <= j < s.len() && s[j].process_id == pid {
            let j = choose|j: int| i <= j < s.len() && s[j].process_id == pid;
            assert(i + 1 <= j);
        }
    }
}

impl FairPolicy {
    /// The ready processes, in arrival order.
    pub closed spec fn processes(&self) -> Seq<ProcessInformation> {
        self.processes@
    }

    /// The runtimes of the processes waiting for an event, by process id.
    pub closed spec fn waiting(&self) -> Map<u64, u128> {
        self.waiting@
    }

    /// The runtimes of the running processes (up to their last switch-in).
    pub closed spec fn running(&self) -> Map<u64, u128> {
        self.running@
    }

    /// The processes removed but not yet dropped from the ready processes.
    pub closed spec fn removed(&self) -> Set<u64> {
        self.removed@
    }

    pub closed spec fn scheduler_latency(&self) -> u128 {
        self.scheduler_latency
    }

    pub closed spec fn minimum_granularity(&self) -> u128 {
        self.minimum_granularity
    }

    /// A policy with no processes, sharing `scheduler_latency` nanoseconds
    /// among the ready processes, with slices of at least
    /// `minimum_granularity` nanoseconds.
    pub fn new(scheduler_latency: u128, minimum_granularity: u128) -> (r: Self)
        ensures
            r.wf(),
            r.processes() == Seq::<ProcessInformation>::empty(),
            r.waiting() == Map::<u64, u128>::empty(),
            r.running() == Map::<u64, u128>::empty(),
            r.removed() == Set::<u64>::empty(),
            r.scheduler_latency() == scheduler_latency,
            r.minimum_granularity() == minimum_granularity,
    {
        Self {
            processes: Vec::new(),
            waiting: BTreeMap::new(),
            running: BTreeMap::new(),
            removed: BTreeSet::new(),
            scheduler_latency,
            minimum_granularity,
        }
    }

    /// The index of the first ready process (the earliest with the
    /// greatest runtime).
    fn peek_index(&self) -> (r: usize)
        requires
            self.processes().len() > 0,
        ensures
            r == max_index(self.processes()),
    {
        let ghost s = self.processes();
        let len = self.processes.len();
        let mut best: usize = 0;
        let mut i: usize = 1;
        while i < len
            invariant
                s == self.processes(),
                len == s.len(),
                1 <= i <= len,
                best == max_index(s.take(i as int)),
                0 <= best < i,
            decreases len - i,
        {
            proof {
                assert(s.take(i as int + 1).drop_last() =~= s.take(i as int));
                lemma_max_index(s.take(i as int));
            }
            if self.processes[i].runtime > self.processes[best].runtime {
                best = i;
            }
            i += 1;
        }
        proof {
            assert(s.take(len as int) =~= s);
        }
        best
    }

    /// The least runtime among the ready processes (0 when there are none).
    fn min_duration(&self) -> (r: u128)
        ensures
            r == min_runtime(self.processes()),
    {
        let ghost s = self.processes();
        let len = self.processes.len();
        if len == 0 {
            return 0;
        }
        let mut least = self.processes[0].runtime;
        let mut i: usize = 1;
        proof {
            assert(s.take(1).drop_last().len() == 0);
        }
        while i < len
            invariant
                s == self.processes(),
                len == s.len(),
                1 <= i <= len,
                least == min_runtime(s.take(i as int)),
            decreases len - i,
        {
            proof {
                assert(s.take(i as int + 1).drop_last() =~= s.take(i as int));
            }
            if self.processes[i].runtime < least {
                least = self.processes[i].runtime;
            }
            i += 1;
        }
        proof {
            assert(s.take(len as int) =~= s);
        }
        least
    }

    /// The index of the earliest ready entry of `process_id`.
    fn entry_index(&self, process_id: ProcessId) -> (r: usize)
        ensures
            r == entry_index_from(self.processes(), process_id, 0),
    {
        let len = self.processes.len();
        let mut i: usize = 0;
        while i < len
            invariant
                len == self.processes().len(),
                i <= len,
                entry_index_from(self.processes(), process_id, 0) == entry_index_from(
                    self.processes(),
                    process_id,
                    i as int,
                ),
            decreases len - i,
        {
            if self.processes[i].process_id == process_id {
                return i;
            }
            i += 1;
        }
        len
    }

    /// The time slice for the current number of ready processes.
    fn recommended_runtime(&self) -> (r: u128)
        requires
            self.processes().len() == 0 || self.processes().len() % 0x1_0000_0000 != 0,
        ensures
            r == time_slice(
                self.processes().len(),
                self.scheduler_latency(),
                self.minimum_granularity(),
            ),
    {
        if self.processes.len() == 0 {
            self.minimum_granularity
        } else {
            let len = self.processes.len();
            assert((len as u32) as int == len as int % 0x1_0000_0000) by (bit_vector);
            let share = self.scheduler_latency / ((len as u32) as u128);
            if self.minimum_granularity >= share {
                self.minimum_granularity
            } else {
                share
            }
        }
    }
}

/// The ready processes, waiting runtimes and running runtimes after the
/// policy is told `info` about `pid`.
pub open spec fn fair_informed(
    processes: Seq<ProcessInformation>,
    waiting: Map<u64, u128>,
    running: Map<u64, u128>,
    pid: ProcessId,
    info: PolicyInformation,
) -> (Seq<ProcessInformation>, Map<u64, u128>, Map<u64, u128>) {
    match info {
        PolicyInformation::ScheduledOut(duration, _, w) => {
            let total = (running[pid.0] + duration) as u128;
            if w {
                (processes, waiting.insert(pid.0, total), running.remove(pid.0))
            } else {
                (
                    processes.push(ProcessInformation { process_id: pid, runtime: total }),
                    waiting,
                    running.remove(pid.0),
                )
            }
        },
        PolicyInformation::DoneWaiting => (
            processes.push(ProcessInformation { process_id: pid, runtime: waiting[pid.0] }),
            waiting.remove(pid.0),
            running,
        ),
        PolicyInformation::StartRunning => {
            let k = start_index(processes, pid);
            (processes.remove(k), waiting, running.insert(pid.0, processes[k].runtime))
        },
    }
}

impl Policy for FairPolicy {
    /// Every process is in at most one place: ready (once), waiting or
    /// running.
    open spec fn wf(&self) -> bool {
        kept_apart(self.processes(), self.waiting(), self.running())
    }

    open spec fn can_insert(&self, process_id: ProcessId) -> bool {
        &&& forall|j: int| 0 <= j < self.processes().len() ==> #[trigger] self.processes()[j].process_id != process_id
        &&& !self.waiting().contains_key(process_id.0)
        &&& !self.running().contains_key(process_id.0)
    }

    open spec fn can_inform(&self, process_id: ProcessId, information: PolicyInformation) -> bool {
        match information {
            PolicyInformation::ScheduledOut(duration, _, _) => self.running().contains_key(
                process_id.0,
            ) && self.running()[process_id.0] + duration <= u128::MAX,
            PolicyInformation::DoneWaiting => self.waiting().contains_key(process_id.0),
            PolicyInformation::StartRunning => exists|j: int|
                0 <= j < self.processes().len() && #[trigger] self.processes()[j].process_id
                    == process_id,
        }
    }

    open spec fn can_advise(&self) -> bool {
        let pruned = prune(self.processes(), self.removed()).0;
        pruned.len() == 0 || pruned.len() % 0x1_0000_0000 != 0
    }

    /// A new process is ready with the least runtime among the ready
    /// processes (0 when there are none).
    fn insert(&mut self, process_id: ProcessId)
        ensures
            final(self).processes() == old(self).processes().push(
                ProcessInformation { process_id, runtime: min_runtime(old(self).processes()) },
            ),
            forall|j: int|
                0 <= j < old(self).processes().len() ==> final(self).processes().last().runtime
                    <= #[trigger] old(self).processes()[j].runtime,
            final(self).waiting() == old(self).waiting(),
            final(self).running() == old(self).running(),
            final(self).removed() == old(self).removed(),
            final(self).scheduler_latency() == old(self).scheduler_latency(),
            final(self).minimum_granularity() == old(self).minimum_granularity(),
    {
        let runtime = self.min_duration();
        proof {
            lemma_min_runtime(old(self).processes());
        }
        self.processes.push(ProcessInformation { process_id, runtime });
        proof {
            let e0 = old(self).processes();
            let e = self.processes();
            assert forall|i: int, j: int| 0 <= i < j < e.len() implies e[i].process_id != e[j].process_id by {
                assert(e[i] == e0[i]);
                if j < e0.len() {
                    assert(e[j] == e0[j]);
                }
            }
            assert forall|i: int| 0 <= i < e.len() implies !self.waiting().contains_key(#[trigger] e[i].process_id.0)
                && !self.running().contains_key(e[i].process_id.0) by {
                if i < e0.len() {
                    assert(e[i] == e0[i]);
                }
            }
        }
    }

    /// A removed process is only marked; it is dropped when it would be
    /// advised.
    fn remove(&mut self, process_id: ProcessId)
        ensures
            final(self).removed() == old(self).removed().insert(process_id.0),
            final(self).processes() == old(self).processes(),
            final(self).waiting() == old(self).waiting(),
            final(self).running() == old(self).running(),
            final(self).scheduler_latency() == old(self).scheduler_latency(),
            final(self).minimum_granularity() == old(self).minimum_granularity(),
    {
        self.removed.insert(process_id.0);
    }

    /// A process switched out adds the time it ran to its runtime and
    /// becomes ready again (or waits, keeping its runtime); one done
    /// waiting becomes ready with its runtime; one switched in leaves the
    /// ready processes and runs with its runtime.
    fn inform(&mut self, process_id: ProcessId, information: &PolicyInformation)
        ensures
            (final(self).processes(), final(self).waiting(), final(self).running())
                == fair_informed(
                old(self).processes(),
                old(self).waiting(),
                old(self).running(),
                process_id,
                *information,
            ),
            final(self).removed() == old(self).removed(),
            final(self).scheduler_latency() == old(self).scheduler_latency(),
            final(self).minimum_granularity() == old(self).minimum_granularity(),
    {
        match information {
            PolicyInformation::ScheduledOut(duration, _, waiting) => {
                let runtime = match self.running.remove(&process_id.0) {
                    Some(r) => r,
                    None => return,
                };
                let total_runtime = runtime + *duration;
                if *waiting {
                    self.waiting.insert(process_id.0, total_runtime);
                } else {
                    self.processes.push(ProcessInformation { process_id, runtime: total_runtime });
                }
            },
            PolicyInformation::DoneWaiting => {
                let runtime = match self.waiting.remove(&process_id.0) {
                    Some(r) => r,
                    None => return,
                };
                self.processes.push(ProcessInformation { process_id, runtime });
            },
            PolicyInformation::StartRunning => {
                proof {
                    lemma_max_index(self.processes());
                    lemma_entry_index_from(self.processes(), process_id, 0);
                }
                let first = self.peek_index();
                let index = if self.processes[first].process_id == process_id {
                    first
                } else {
                    self.entry_index(process_id)
                };
                let removed = self.processes.remove(index);
                self.running.insert(removed.process_id.0, removed.runtime);
            },
        }
        proof {
            lemma_fair_informed_keeps_apart(
                old(self).processes(),
                old(self).waiting(),
                old(self).running(),
                process_id,
                *information,
            );
        }
    }

    /// Removed processes are first dropped from the front; then the first
    /// ready process is advised, for the time slice of the remaining ready
    /// processes, to be switched out by the timer or when it yields.
    fn advise(&mut self) -> (advice: Option<PolicyAdvice>)
        ensures
            ({
                let (pruned, still_removed) = prune(old(self).processes(), old(self).removed());
                &&& final(self).processes() == pruned
                &&& final(self).removed() == still_removed
                &&& pruned.len() == 0 ==> advice is None
                &&& pruned.len() > 0 ==> advice is Some && advice->0.process_id
                    == pruned[max_index(pruned)].process_id && advice->0.runtime == Some(
                    time_slice(
                        pruned.len(),
                        old(self).scheduler_latency(),
                        old(self).minimum_granularity(),
                    ),
                ) && condition_is(
                    advice->0.stop_condition,
                    set![SwitchTrigger::Timer, SwitchTrigger::Yield],
                )
            }),
            final(self).waiting() == old(self).waiting(),
            final(self).running() == old(self).running(),
            final(self).scheduler_latency() == old(self).scheduler_latency(),
            final(self).minimum_granularity() == old(self).minimum_granularity(),
    {
        let ghost target = prune(self.processes(), self.removed());
        loop
            invariant
                prune(self.processes(), self.removed()) == target,
                self.waiting() == old(self).waiting(),
                self.running() == old(self).running(),
                self.scheduler_latency() == old(self).scheduler_latency(),
                self.minimum_granularity() == old(self).minimum_granularity(),
            ensures
                target == (self.processes(), self.removed()),
            decreases self.processes().len(),
        {
            if self.processes.len() == 0 {
                break;
            }
            proof {
                lemma_max_index(self.processes());
            }
            let first = self.peek_index();
            let process_id = self.processes[first].process_id;
            if self.removed.contains(&process_id.0) {
                self.removed.remove(&process_id.0);
                self.processes.remove(first);
            } else {
                break;
            }
        }

        proof {
            lemma_prune_keeps_apart(old(self).processes(), old(self).removed(), self.waiting(), self.running());
        }
        if self.processes.len() == 0 {
            return None;
        }
        proof {
            lemma_max_index(self.processes());
        }
        let first = self.peek_index();
        let process_id = self.processes[first].process_id;
        let runtime = self.recommended_runtime();
        let stop_condition = SwitchCondition::new().or(SwitchTrigger::Timer).or(SwitchTrigger::Yield);
        Some(PolicyAdvice { process_id, runtime: Some(runtime), stop_condition })
    }
}

} // verus!

verus! {

/// Whether every process is in at most one place of the fair policy: no
/// two ready entries share a process, and a process with a ready entry is
/// neither waiting nor running, nor is a waiting process running.
pub open spec fn kept_apart(processes: Seq<ProcessInformation>, waiting: Map<u64, u128>, running: Map<u64, u128>) -> bool {
    &&& forall|i: int, j: int| 0 <= i < j < processes.len() ==> processes[i].process_id != processes[j].process_id
    &&& forall|i: int|
        0 <= i < processes.len() ==> !waiting.contains_key(#[trigger] processes[i].process_id.0)
            && !running.contains_key(processes[i].process_id.0)
    &&& forall|k: u64| waiting.contains_key(k) ==> !running.contains_key(k)
}

/// Each process stays in at most one place: telling the fair policy that
/// a process started running, was switched out, or is done waiting moves
/// it from the one place it is in to another, so no process is ever ready
/// twice, or ready and waiting, or waiting and running.
pub proof fn lemma_fair_informed_keeps_apart(
    processes: Seq<ProcessInformation>,
    waiting: Map<u64, u128>,
    running: Map<u64, u128>,
    pid: ProcessId,
    info: PolicyInformation,
)
    requires
        kept_apart(processes, waiting, running),
        info is ScheduledOut ==> running.contains_key(pid.0),
        info is DoneWaiting ==> waiting.contains_key(pid.0),
        info is StartRunning ==> exists|j: int| 0 <= j < processes.len() && #[trigger] processes[j].process_id == pid,
    ensures
        ({
            let (p2, w2, r2) = fair_informed(processes, waiting, running, pid, info);
            kept_apart(p2, w2, r2)
        }),
{
    let (p2, w2, r2) = fair_informed(processes, waiting, running, pid, info);
    match info {
        PolicyInformation::ScheduledOut(duration, _, w) => {
            assert forall|i: int| 0 <= i < processes.len() implies processes[i].process_id != pid by {}
            if !w {
                assert forall|i: int, j: int| 0 <= i < j < p2.len() implies p2[i].process_id != p2[j].process_id by {
                    if j == p2.len() - 1 {
                        assert(p2[i] == processes[i]);
                    }
                }
                assert forall|i: int| 0 <= i < p2.len() implies !w2.contains_key(#[trigger] p2[i].process_id.0)
                    && !r2.contains_key(p2[i].process_id.0) by {
                    if i < processes.len() {
                        assert(p2[i] == processes[i]);
                    }
                }
            }
        },
        PolicyInformation::DoneWaiting => {
            assert forall|i: int| 0 <= i < processes.len() implies processes[i].process_id != pid by {}
            assert forall|i: int, j: int| 0 <= i < j < p2.len() implies p2[i].process_id != p2[j].process_id by {
                if j == p2.len() - 1 {
                    assert(p2[i] == processes[i]);
                }
            }
            assert forall|i: int| 0 <= i < p2.len() implies !w2.contains_key(#[trigger] p2[i].process_id.0)
                && !r2.contains_key(p2[i].process_id.0) by {
                if i < processes.len() {
                    assert(p2[i] == processes[i]);
                }
            }
        },
        PolicyInformation::StartRunning => {
            lemma_max_index(processes);
            lemma_entry_index_from(processes, pid, 0);
            let k = start_index(processes, pid);
            assert(0 <= k < processes.len() && processes[k].process_id == pid);
            processes.remove_ensures(k);
            assert forall|i: int, j: int| 0 <= i < j < p2.len() implies p2[i].process_id != p2[j].process_id by {
                let i2 = if i < k { i } else { i + 1 };
                let j2 = if j < k { j } else { j + 1 };
                assert(p2[i] == processes[i2] && p2[j] == processes[j2]);
            }
            assert forall|i: int| 0 <= i < p2.len() implies !w2.contains_key(#[trigger] p2[i].process_id.0)
                && !r2.contains_key(p2[i].process_id.0) by {
                let i2 = if i < k { i } else { i + 1 };
                assert(p2[i] == processes[i2]);
                assert(processes[i2].process_id != processes[k].process_id);
            }
        },
    }
}

/// Dropping a ready entry keeps every process in at most one place.
proof fn lemma_remove_keeps_apart(
    processes: Seq<ProcessInformation>,
    waiting: Map<u64, u128>,
    running: Map<u64, u128>,
    k: int,
)
    requires
        kept_apart(processes, waiting, running),
        0 <= k < processes.len(),
    ensures
        kept_apart(processes.remove(k), waiting, running),
{
    let p2 = processes.remove(k);
    processes.remove_ensures(k);
    assert forall|i: int, j: int| 0 <= i < j < p2.len() implies p2[i].process_id != p2[j].process_id by {
        let i2 = if i < k { i } else { i + 1 };
        let j2 = if j < k { j } else { j + 1 };
        assert(p2[i] == processes[i2] && p2[j] == processes[j2]);
    }
    assert forall|i: int| 0 <= i < p2.len() implies !waiting.contains_key(#[trigger] p2[i].process_id.0)
        && !running.contains_key(p2[i].process_id.0) by {
        let i2 = if i < k { i } else { i + 1 };
        assert(p2[i] == processes[i2]);
    }
}

/// Dropping removed processes from the front keeps every process in at most
/// one place.
proof fn lemma_prune_keeps_apart(
    processes: Seq<ProcessInformation>,
    removed: Set<u64>,
    waiting: Map<u64, u128>,
    running: Map<u64, u128>,
)
    requires
        kept_apart(processes, waiting, running),
    ensures
        kept_apart(prune(processes, removed).0, waiting, running),
    decreases processes.len(),
{
    if processes.len() > 0 {
        let m = max_index(processes);
        lemma_max_index(processes);
        if removed.contains(processes[m].process_id.0) {
            lemma_remove_keeps_apart(processes, waiting, running, m);
            lemma_prune_keeps_apart(processes.remove(m), removed.remove(processes[m].process_id.0), waiting, running);
        }
    }
}

} // verus!

verus! {

/// The least runtime is no greater than any entry's, and is one of them
/// (0 when there are none): a process joining the ready ones gets that
/// runtime, so it never jumps ahead of a process that has run less.
pub proof fn lemma_min_runtime(s: Seq<ProcessInformation>)
    ensures
        forall|j: int| 0 <= j < s.len() ==> min_runtime(s) <= #[trigger] s[j].runtime,
        s.len() > 0 ==> exists|j: int| 0 <= j < s.len() && s[j].runtime == min_runtime(s),
        s.len() == 0 ==> min_runtime(s) == 0,
    decreases s.len(),
{
    if s.len() > 1 {
        let t = s.drop_last();
        lemma_min_runtime(t);
        assert forall|j: int| 0 <= j < s.len() implies min_runtime(s) <= #[trigger] s[j].runtime by {
            if j < s.len() - 1 {
                assert(s[j] == t[j]);
            }
        }
        if s.last().runtime >= min_runtime(t) {
            let j = choose|j: int| 0 <= j < t.len() && t[j].runtime == min_runtime(t);
            assert(s[j] == t[j]);
        }
    } else if s.len() == 1 {
        assert(s[0].runtime == min_runtime(s));
    }
}

/// Waiting keeps a process's runtime: switched out after running `d` more
/// nanoseconds to wait, and then done waiting, it is ready again at the end
/// of the ready processes with exactly the runtime it had gathered, and
/// it is neither waiting nor running any more.
pub proof fn lemma_wait_keeps_runtime(
    processes: Seq<ProcessInformation>,
    waiting: Map<u64, u128>,
    running: Map<u64, u128>,
    pid: ProcessId,
    d: u128,
    trigger: SwitchTrigger,
)
    requires
        running.contains_key(pid.0),
        running[pid.0] + d <= u128::MAX,
    ensures
        ({
            let (p1, w1, r1) = fair_informed(processes, waiting, running, pid, PolicyInformation::ScheduledOut(d, trigger, true));
            let (p2, w2, r2) = fair_informed(p1, w1, r1, pid, PolicyInformation::DoneWaiting);
            &&& p2 == processes.push(ProcessInformation { process_id: pid, runtime: (running[pid.0] + d) as u128 })
            &&& w2 == waiting.remove(pid.0)
            &&& r2 == running.remove(pid.0)
            &&& p2.last().runtime == running[pid.0] + d
        }),
{
    let (p1, w1, r1) = fair_informed(processes, waiting, running, pid, PolicyInformation::ScheduledOut(d, trigger, true));
    assert(w1 == waiting.insert(pid.0, (running[pid.0] + d) as u128));
    assert(w1.remove(pid.0) =~= waiting.remove(pid.0));
}

/// A fair time slice shares the latency among the ready processes: with
/// `count` of them (fewer than 2^32, and at least one) it is the latency
/// divided by `count`, but at least the minimum granularity; it never grows
/// as more processes are ready.
pub proof fn lemma_time_slice_divides_latency(count: nat, more: nat, latency: u128, granularity: u128)
    requires
        0 < count <= more < 0x1_0000_0000,
    ensures
        time_slice(count, latency, granularity) as int == if latency as int / count as int >= granularity {
            latency as int / count as int
        } else {
            granularity as int
        },
        time_slice(more, latency, granularity) <= time_slice(count, latency, granularity),
        time_slice(0, latency, granularity) == granularity,
{
    vstd::arithmetic::div_mod::lemma_div_is_ordered_by_denominator(latency as int, count as int, more as int);
}

} // verus!

