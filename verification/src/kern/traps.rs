use vstd::prelude::*;

pub use crate::kernel::traps::{Info, Kind, Source};
use crate::kern::frame::TrapFrame;
use crate::kern::syndrome::{syndrome_of, Syndrome};

verus! {

/// Whether the exception is resumed at the instruction after the one that
/// raised it: only a synchronous `brk` is.
pub open spec fn skips_instruction(info: Info, esr: u32) -> bool {
    info.kind() == Kind::Synchronous && syndrome_of(esr) is Brk
}

/// Handles the exception `info` with syndrome register value `esr` taken
/// with the registers `tf` (reporting it and running the debug shell is
/// left to the caller): a synchronous `brk` resumes at the following
/// instruction, so `elr` advances by 4; nothing else in the frame changes,
/// and any other exception leaves the frame as it was.
pub fn handle_exception(info: Info, esr: u32, tf: &mut TrapFrame)
    requires
        skips_instruction(info, esr) ==> old(tf).elr + 4 <= u64::MAX,
    ensures
        skips_instruction(info, esr) ==> *final(tf) == (TrapFrame { elr: (old(tf).elr + 4) as u64, ..*old(tf) }),
        !skips_instruction(info, esr) ==> *final(tf) == *old(tf),
{
    let syndrome = Syndrome::from(esr);
    match info.get_kind() {
        Kind::Synchronous => match syndrome {
            Syndrome::Brk(_) => {
                tf.elr = tf.elr + 4;
            },
            _ => {},
        },
        _ => {},
    }
}

} // verus!
