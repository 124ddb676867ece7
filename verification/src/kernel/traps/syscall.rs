//! The decisions inside system calls: which user buffers can be copied,
//! and when a sleeping or waiting process may resume, with the values it
//! then finds in its registers.

use vstd::prelude::*;

use crate::kernel::error::OsError;
use crate::kernel::memory::pagetable::PAGE_SIZE;
use crate::kernel::process::ProcessId;
use crate::kernel::traps::frame::TrapFrame;

verus! {

/// Nanoseconds per millisecond.
pub const NANOS_PER_MILLI: u128 = 1_000_000;

/// Nanoseconds per second.
pub const NANOS_PER_SEC: u128 = 1_000_000_000;

/// Answers the time system call at time `now` (in nanoseconds since the
/// timer started): the process finds the whole seconds in `x0` and the
/// fractional part, in nanoseconds, in `x1`; nothing else changes.
pub fn sys_time(now: u128, tf: &mut TrapFrame) -> (r: Result<(), OsError>)
    requires
        now / NANOS_PER_SEC <= u64::MAX,
    ensures
        r is Ok,
        final(tf).xs@ == old(tf).xs@.update(0, (now / NANOS_PER_SEC) as u64).update(1, (now % NANOS_PER_SEC) as u64),
        *final(tf) == (TrapFrame { xs: final(tf).xs, ..*old(tf) }),
{
    tf.xs[0] = (now / NANOS_PER_SEC) as u64;
    tf.xs[1] = (now % NANOS_PER_SEC) as u64;
    Ok(())
}

/// Whether `len` bytes at user address `ptr` stay within the page where
/// they start.
pub open spec fn within_page(ptr: u64, len: usize) -> bool {
    (ptr % PAGE_SIZE) + len <= PAGE_SIZE
}

/// Checks a user buffer before it is copied to or from the kernel: it may
/// not cross the end of its page.
pub fn check_user_range(ptr: u64, len: usize) -> (r: Result<(), OsError>)
    ensures
        r is Ok <==> within_page(ptr, len),
        r is Err ==> r == Err::<(), OsError>(OsError::BadAddress),
{
    let offset = ptr % PAGE_SIZE;
    if len as u64 > PAGE_SIZE || offset + len as u64 > PAGE_SIZE {
        Err(OsError::BadAddress)
    } else {
        Ok(())
    }
}

/// When a process that sleeps `ms` milliseconds from time `started` (in
/// nanoseconds) may wake.
pub fn sleep_deadline(started: u128, ms: u64) -> (r: u128)
    requires
        started + ms * NANOS_PER_MILLI <= u128::MAX,
    ensures
        r == started + ms * NANOS_PER_MILLI,
{
    assert(ms * NANOS_PER_MILLI <= u64::MAX * NANOS_PER_MILLI) by (nonlinear_arith)
        requires
            ms <= u64::MAX,
    ;
    started + (ms as u128) * NANOS_PER_MILLI
}

/// Whether a sleeping process may wake at time `now`, and if so the
/// milliseconds it slept, which it finds as its first return value: it
/// wakes once the deadline has passed.
pub fn sleep_outcome(started: u128, deadline: u128, now: u128) -> (r: Option<u64>)
    requires
        started <= deadline,
    ensures
        deadline < now ==> r == Some((((now - started) as u128) / NANOS_PER_MILLI) as u64),
        !(deadline < now) ==> r is None,
{
    if deadline < now {
        let slept = (now - started) / NANOS_PER_MILLI;
        Some(slept as u64)
    } else {
        None
    }
}

/// Whether a process waiting for a child may resume at time `now`, and if
/// so the two values it finds in its registers: the id of the child that
/// died last (taken from `dead_children`) and 0, or, when there is none
/// and the wait has a timeout that has passed, 0 and 1 (timed out).
pub fn wait_outcome(
    dead_children: &mut Vec<ProcessId>,
    use_timeout: bool,
    timeout_end: u128,
    now: u128,
) -> (r: Option<(u64, u64)>)
    ensures
        old(dead_children)@.len() > 0 ==> {
            &&& r == Some((old(dead_children)@.last().0, 0u64))
            &&& final(dead_children)@ == old(dead_children)@.drop_last()
        },
        old(dead_children)@.len() == 0 ==> {
            &&& final(dead_children)@ == old(dead_children)@
            &&& (use_timeout && timeout_end < now) ==> r == Some((0u64, 1u64))
            &&& !(use_timeout && timeout_end < now) ==> r is None
        },
{
    match dead_children.pop() {
        Some(id) => Some((id.0, 0)),
        None => {
            if use_timeout && timeout_end < now {
                Some((0, 1))
            } else {
                None
            }
        },
    }
}

} // verus!
