//! The registers the earlier kernel saves when a trap is taken.

use vstd::prelude::*;

verus! {

/// The saved register context of the earlier kernel: return address, saved
/// program status, stack pointer, thread id, the SIMD registers (each held
/// as the raw 64 bits the hardware stores) and the general registers.
#[derive(Copy, Clone, Debug, PartialEq, Eq)]
pub struct TrapFrame {
    pub elr: u64,
    pub spsr: u64,
    pub sp: u64,
    pub tpidr: u64,
    pub qs: [u64; 32],
    pub xs: [u64; 31],
    pub xzr: u64,
}

impl TrapFrame {
    /// A context with every register zero.
    pub fn zeroed() -> (r: Self)
        ensures
            r.elr == 0 && r.spsr == 0 && r.sp == 0 && r.tpidr == 0 && r.xzr == 0,
            forall|i: int| 0 <= i < 32 ==> r.qs@[i] == 0,
            forall|i: int| 0 <= i < 31 ==> r.xs@[i] == 0,
    {
        TrapFrame {
            elr: 0,
            spsr: 0,
            sp: 0,
            tpidr: 0,
            qs: [0, 0, 0, 0, 0, 0, 0, 0, 0, 0, 0, 0, 0, 0, 0, 0, 0, 0, 0, 0, 0, 0, 0, 0, 0, 0, 0, 0, 0, 0, 0, 0],
            xs: [0, 0, 0, 0, 0, 0, 0, 0, 0, 0, 0, 0, 0, 0, 0, 0, 0, 0, 0, 0, 0, 0, 0, 0, 0, 0, 0, 0, 0, 0, 0],
            xzr: 0,
        }
    }
}

} // verus!
