//! The registers of a process saved when it traps into the kernel.

use vstd::prelude::*;

verus! {

/// The saved register context of a process: its page-table bases, return
/// address, saved program status, stack pointer, thread id (its process
/// id), the SIMD registers (as 128-bit values) and the general registers.
#[derive(Copy, Clone, Debug, PartialEq, Eq)]
pub struct TrapFrame {
    pub ttbr0: u64,
    pub ttbr1: u64,
    pub elr: u64,
    pub spsr: u64,
    pub sp: u64,
    pub tpidr: u64,
    pub qs: [u128; 32],
    pub xs: [u64; 31],
    pub xzr: u64,
}

/// Whether every register of `f` is zero.
pub open spec fn is_zeroed(f: TrapFrame) -> bool {
    &&& f.ttbr0 == 0 && f.ttbr1 == 0 && f.elr == 0 && f.spsr == 0 && f.sp == 0 && f.tpidr == 0
    &&& f.xzr == 0
    &&& forall|i: int| 0 <= i < 32 ==> f.qs@[i] == 0
    &&& forall|i: int| 0 <= i < 31 ==> f.xs@[i] == 0
}

impl TrapFrame {
    /// A context with every register zero.
    pub fn zeroed() -> (r: Self)
        ensures
            is_zeroed(r),
    {
        TrapFrame {
            ttbr0: 0,
            ttbr1: 0,
            elr: 0,
            spsr: 0,
            sp: 0,
            tpidr: 0,
            qs: [0, 0, 0, 0, 0, 0, 0, 0, 0, 0, 0, 0, 0, 0, 0, 0, 0, 0, 0, 0, 0, 0, 0, 0, 0, 0, 0, 0, 0, 0, 0, 0],
            xs: [0, 0, 0, 0, 0, 0, 0, 0, 0, 0, 0, 0, 0, 0, 0, 0, 0, 0, 0, 0, 0, 0, 0, 0, 0, 0, 0, 0, 0, 0, 0],
            xzr: 0,
        }
    }
}

} // verus!
