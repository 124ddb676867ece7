//! The scheduling state of a process, as the scheduler keeps it.

use vstd::prelude::*;

use crate::kernel::process::ProcessId;
use crate::kernel::traps::frame::{is_zeroed, TrapFrame};

verus! {

/// The value in register `x7` that tells a process its system call
/// succeeded.
pub const SYSCALL_SUCCESS: u64 = 1;

/// The scheduling state of a process. A waiting process waits for an
/// event; whether the event has come is asked of the process's own poll
/// function, outside the scheduler.
#[derive(Copy, Clone, Debug, PartialEq, Eq, Structural)]
pub enum State {
    Ready,
    Waiting,
    Running,
    Dead,
}

/// What the scheduler keeps of a process: its saved registers, its state,
/// its parent, and the children it has seen die.
pub struct ScheduledProcess {
    pub context: TrapFrame,
    pub state: State,
    pub parent: Option<ProcessId>,
    pub dead_children: Vec<ProcessId>,
}

/// `process` with its thread-id register set to `id`, all else as it was.
pub open spec fn with_tpidr(process: ScheduledProcess, id: ProcessId) -> ScheduledProcess {
    ScheduledProcess { context: TrapFrame { tpidr: id.0, ..process.context }, ..process }
}

/// Whether `child` is the context a forked child starts from, given its
/// parent's context and the two page-table bases: the parent's registers,
/// except that `x0` is 0, `x1` is 1 (the child learns it is the child), `x7`
/// reports success, and the page tables are the kernel's and the child's
/// own.
pub open spec fn is_forked_context(child: TrapFrame, parent: TrapFrame, kernel_table_base: u64, child_table_base: u64) -> bool {
    &&& child.xs@ == parent.xs@.update(0, 0).update(1, 1).update(7, SYSCALL_SUCCESS)
    &&& child.ttbr0 == kernel_table_base
    &&& child.ttbr1 == child_table_base
    &&& child.elr == parent.elr
    &&& child.spsr == parent.spsr
    &&& child.sp == parent.sp
    &&& child.tpidr == parent.tpidr
    &&& child.qs == parent.qs
    &&& child.xzr == parent.xzr
}

impl ScheduledProcess {
    /// A ready process with no children, child of `parent` (if any), whose
    /// registers are all zero.
    pub fn new(parent: Option<ProcessId>) -> (r: Self)
        ensures
            is_zeroed(r.context),
            r.state == State::Ready,
            r.parent == parent,
            r.dead_children@ == Seq::<ProcessId>::empty(),
    {
        ScheduledProcess { context: TrapFrame::zeroed(), state: State::Ready, parent, dead_children: Vec::new() }
    }

    /// The child of a fork of this process, whose new address space has
    /// its page table at `child_table_base` (the kernel's is at
    /// `kernel_table_base`): a ready process with no dead children, child of
    /// this process (by the id in its thread-id register), that resumes
    /// from this process's registers with `x0 = 0`, `x1 = 1` and `x7`
    /// reporting success.
    pub fn fork(&self, kernel_table_base: u64, child_table_base: u64) -> (r: ScheduledProcess)
        ensures
            is_forked_context(r.context, self.context, kernel_table_base, child_table_base),
            r.state == State::Ready,
            r.parent == Some(ProcessId(self.context.tpidr)),
            r.dead_children@ == Seq::<ProcessId>::empty(),
    {
        let mut context = self.context;
        context.xs[0] = 0;
        context.xs[1] = 1;
        context.xs[7] = SYSCALL_SUCCESS;
        context.ttbr0 = kernel_table_base;
        context.ttbr1 = child_table_base;
        ScheduledProcess {
            context,
            state: State::Ready,
            parent: Some(ProcessId(self.context.tpidr)),
            dead_children: Vec::new(),
        }
    }

    /// Whether the process can run, given whether its poll function says
    /// the event it waits for has come (asked only of a waiting process):
    /// a waiting process whose event has come becomes ready, and only a
    /// ready process can run.
    pub fn can_run(&mut self, event_arrived: bool) -> (r: bool)
        ensures
            old(self).state == State::Waiting && event_arrived ==> final(self).state == State::Ready,
            !(old(self).state == State::Waiting && event_arrived) ==> final(self).state == old(
                self,
            ).state,
            final(self).context == old(self).context,
            final(self).parent == old(self).parent,
            final(self).dead_children == old(self).dead_children,
            r == (final(self).state == State::Ready),
    {
        if self.state == State::Waiting && event_arrived {
            self.state = State::Ready;
        }
        self.state == State::Ready
    }
}

} // verus!
