use vstd::prelude::*;

pub use crate::kernel::syndrome::{fault_of, Fault};
use crate::kernel::syndrome::{exception_class, instruction_syndrome, low16, split_syndrome, truncate16};

verus! {

/// A decoded exception syndrome (the value of ESR_EL1), where aborts carry
/// their coarse fault kind and the translation level.
#[derive(Debug, PartialEq, Eq, Structural, Copy, Clone)]
pub enum Syndrome {
    Unknown,
    WfiWfe,
    SimdFp,
    IllegalExecutionState,
    Svc(u16),
    Hvc(u16),
    Smc(u16),
    MsrMrsSystem,
    InstructionAbort { kind: Fault, level: u8 },
    PCAlignmentFault,
    DataAbort { kind: Fault, level: u8 },
    SpAlignmentFault,
    TrappedFpu,
    SError,
    Breakpoint,
    Step,
    Watchpoint,
    Brk(u16),
    Other(u32),
}

/// The fault status of an abort: the low six bits of its syndrome.
pub open spec fn fault_status(iss: u32) -> u32 {
    iss % 64
}

fn status_of(iss: u32) -> (r: u32)
    ensures
        r == fault_status(iss),
{
    assert(iss & 0b11_1111u32 == iss % 64) by (bit_vector);
    iss & 0b11_1111
}

/// The level reported by an abort: the low two bits of the syndrome.
pub open spec fn abort_level(iss: u32) -> u8 {
    (iss % 4) as u8
}

pub open spec fn syndrome_of(esr: u32) -> Syndrome {
    let ec = exception_class(esr);
    let iss = instruction_syndrome(esr);
    if ec == 0b00_0000 {
        Syndrome::Unknown
    } else if ec == 0b00_0001 {
        Syndrome::WfiWfe
    } else if ec == 0b00_0111 {
        Syndrome::SimdFp
    } else if ec == 0b00_1110 {
        Syndrome::IllegalExecutionState
    } else if ec == 0b01_0101 {
        Syndrome::Svc(low16(iss))
    } else if ec == 0b01_0110 {
        Syndrome::Hvc(low16(iss))
    } else if ec == 0b01_0111 {
        Syndrome::Smc(low16(iss))
    } else if ec == 0b01_1000 {
        Syndrome::MsrMrsSystem
    } else if 0b10_0000 <= ec <= 0b10_0001 {
        Syndrome::InstructionAbort { kind: fault_of(fault_status(iss)), level: abort_level(iss) }
    } else if ec == 0b10_0010 {
        Syndrome::PCAlignmentFault
    } else if 0b10_0100 <= ec <= 0b10_0101 {
        Syndrome::DataAbort { kind: fault_of(fault_status(iss)), level: abort_level(iss) }
    } else if ec == 0b10_0110 {
        Syndrome::SpAlignmentFault
    } else if 0b10_1000 <= ec <= 0b10_1100 {
        Syndrome::TrappedFpu
    } else if ec == 0b10_1111 {
        Syndrome::SError
    } else if 0b11_0000 <= ec <= 0b11_0001 {
        Syndrome::Breakpoint
    } else if 0b11_0010 <= ec <= 0b11_0011 {
        Syndrome::Step
    } else if 0b11_0100 <= ec <= 0b11_0101 {
        Syndrome::Watchpoint
    } else if ec == 0b11_1100 {
        Syndrome::Brk(low16(esr))
    } else {
        Syndrome::Other(esr)
    }
}

fn level_of(iss: u32) -> (r: u8)
    ensures
        r == abort_level(iss),
{
    assert((iss as u8) & 0b11u8 == iss % 4) by (bit_vector);
    (iss as u8) & 0b11
}

impl From<u32> for Syndrome {
    /// Converts a raw syndrome value (ESR) into a `Syndrome` (ref: D1.10.4).
    fn from(esr: u32) -> (r: Syndrome) {
        let (exception_class, instruction_syndrome) = split_syndrome(esr);
        match exception_class {
            0b00_0000 => Syndrome::Unknown,
            0b00_0001 => Syndrome::WfiWfe,
            0b00_0111 => Syndrome::SimdFp,
            0b00_1110 => Syndrome::IllegalExecutionState,
            0b01_0101 => Syndrome::Svc(truncate16(instruction_syndrome)),
            0b01_0110 => Syndrome::Hvc(truncate16(instruction_syndrome)),
            0b01_0111 => Syndrome::Smc(truncate16(instruction_syndrome)),
            0b01_1000 => Syndrome::MsrMrsSystem,
            0b10_0000..=0b10_0001 => Syndrome::InstructionAbort {
                kind: Fault::from(status_of(instruction_syndrome)),
                level: level_of(instruction_syndrome),
            },
            0b10_0010 => Syndrome::PCAlignmentFault,
            0b10_0100..=0b10_0101 => Syndrome::DataAbort {
                kind: Fault::from(status_of(instruction_syndrome)),
                level: level_of(instruction_syndrome),
            },
            0b10_0110 => Syndrome::SpAlignmentFault,
            0b10_1000..=0b10_1100 => Syndrome::TrappedFpu,
            0b10_1111 => Syndrome::SError,
            0b11_0000..=0b11_0001 => Syndrome::Breakpoint,
            0b11_0010..=0b11_0011 => Syndrome::Step,
            0b11_0100..=0b11_0101 => Syndrome::Watchpoint,
            0b11_1100 => Syndrome::Brk(truncate16(esr)),
            _ => Syndrome::Other(esr),
        }
    }
}

impl vstd::std_specs::convert::FromSpecImpl<u32> for Syndrome {
    open spec fn obeys_from_spec() -> bool {
        true
    }

    open spec fn from_spec(v: u32) -> Self {
        syndrome_of(v)
    }
}

} // verus!

verus! {

/// Aborts decode by the ARM exception-class table: classes `0b100000` and
/// `0b100001` are instruction aborts and `0b100100` and `0b100101` data
/// aborts, each with the fault kind of its status code (bits 5..0) and the
/// level in bits 1..0; the other classes keep their meaning.
pub proof fn lemma_abort_classes(esr: u32)
    ensures
        ({
            let ec = esr as int / 0x4000000;
            let kind = fault_of(esr % 64);
            let level = (esr % 4) as u8;
            &&& (ec == 0x20 || ec == 0x21) ==> syndrome_of(esr) == (Syndrome::InstructionAbort { kind, level })
            &&& (ec == 0x24 || ec == 0x25) ==> syndrome_of(esr) == (Syndrome::DataAbort { kind, level })
            &&& ec == 0x15 ==> syndrome_of(esr) == Syndrome::Svc((esr % 0x10000) as u16)
            &&& ec == 0x3c ==> syndrome_of(esr) == Syndrome::Brk((esr % 0x10000) as u16)
            &&& ec == 0x22 ==> syndrome_of(esr) == Syndrome::PCAlignmentFault
            &&& ec == 0x26 ==> syndrome_of(esr) == Syndrome::SpAlignmentFault
        }),
{
    assert((esr % 0x2000000) % 0x10000 == esr % 0x10000) by (bit_vector);
    assert((esr % 0x2000000) % 64 == esr % 64) by (bit_vector);
    assert((esr % 0x2000000) % 4 == esr % 4) by (bit_vector);
}

} // verus!

