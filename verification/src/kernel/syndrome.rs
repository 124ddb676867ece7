use vstd::prelude::*;

verus! {

/// Coarse classification of an instruction-specific syndrome value.
#[derive(Debug, PartialEq, Eq, Structural, Clone, Copy)]
pub enum Fault {
    AddressSize,
    Translation,
    AccessFlag,
    Permission,
    Alignment,
    TlbConflict,
    Other(u8),
}

/// The classification of a fault status code (the low six bits of an
/// abort's syndrome, as in the ARM table of data fault status codes):
/// address size, translation, access flag and permission faults by their
/// ranges, alignment fault `0b100001` and TLB conflict `0b110000`.
pub open spec fn fault_of(val: u32) -> Fault {
    if val <= 0b11 {
        Fault::AddressSize
    } else if 0b100 <= val <= 0b111 {
        Fault::Translation
    } else if 0b1001 <= val <= 0b1011 {
        Fault::AccessFlag
    } else if 0b1101 <= val <= 0b1111 {
        Fault::Permission
    } else if val == 0b100001 {
        Fault::Alignment
    } else if val == 0b110000 {
        Fault::TlbConflict
    } else {
        Fault::Other((val % 256) as u8)
    }
}

impl From<u32> for Fault {
    fn from(val: u32) -> (r: Fault) {
        if val <= 0b11 {
            Fault::AddressSize
        } else if 0b100 <= val && val <= 0b111 {
            Fault::Translation
        } else if 0b1001 <= val && val <= 0b1011 {
            Fault::AccessFlag
        } else if 0b1101 <= val && val <= 0b1111 {
            Fault::Permission
        } else if val == 0b100001 {
            Fault::Alignment
        } else if val == 0b110000 {
            Fault::TlbConflict
        } else {
            Fault::Other((val % 256) as u8)
        }
    }
}

impl vstd::std_specs::convert::FromSpecImpl<u32> for Fault {
    open spec fn obeys_from_spec() -> bool {
        true
    }

    open spec fn from_spec(v: u32) -> Self {
        fault_of(v)
    }
}


/// Fault status code (the low six bits of an abort's syndrome).
#[derive(Debug, PartialEq, Eq, Structural, Clone, Copy)]
pub enum FaultStatusCode {
    AddressSizeFault0,
    AddressSizeFault1,
    AddressSizeFault2,
    AddressSizeFault3,
    TranslationFault0,
    TranslationFault1,
    TranslationFault2,
    TranslationFault3,
    AccessFlagFault1,
    AccessFlagFault2,
    AccessFlagFault3,
    PermissionFault1,
    PermissionFault2,
    PermissionFault3,
    SynchronousExternalAbortNotOnTranslationWalk,
    SynchronousParityOrECCNotOnTranslationWalk,
    SynchronousExternalAbortOnTranslationWalk0,
    SynchronousExternalAbortOnTranslationWalk1,
    SynchronousExternalAbortOnTranslationWalk2,
    SynchronousExternalAbortOnTranslationWalk3,
    SynchronousParityOrECCOnTranslationWalk0,
    SynchronousParityOrECCOnTranslationWalk1,
    SynchronousParityOrECCOnTranslationWalk2,
    SynchronousParityOrECCOnTranslationWalk3,
    AlignmentFault,
    TlbConflictAbort,
    UnsupportedAtomicHardwareUpdate,
    LockdownFault,
    UnsupportedExclusiveOrAtomicAccess,
    SectionDomainFault,
    PageDomainFault,
    Unknown(u32),
}

/// The status code named by the low six bits of `value`.
pub open spec fn fault_status_code_of(value: u32) -> FaultStatusCode {
    match value % 64 {
        0b000000u32 => FaultStatusCode::AddressSizeFault0,
        0b000001u32 => FaultStatusCode::AddressSizeFault1,
        0b000010u32 => FaultStatusCode::AddressSizeFault2,
        0b000011u32 => FaultStatusCode::AddressSizeFault3,
        0b000100u32 => FaultStatusCode::TranslationFault0,
        0b000101u32 => FaultStatusCode::TranslationFault1,
        0b000110u32 => FaultStatusCode::TranslationFault2,
        0b000111u32 => FaultStatusCode::TranslationFault3,
        0b001001u32 => FaultStatusCode::AccessFlagFault1,
        0b001010u32 => FaultStatusCode::AccessFlagFault2,
        0b001011u32 => FaultStatusCode::AccessFlagFault3,
        0b001101u32 => FaultStatusCode::PermissionFault1,
        0b001110u32 => FaultStatusCode::PermissionFault2,
        0b001111u32 => FaultStatusCode::PermissionFault3,
        0b010000u32 => FaultStatusCode::SynchronousExternalAbortNotOnTranslationWalk,
        0b011000u32 => FaultStatusCode::SynchronousParityOrECCNotOnTranslationWalk,
        0b010100u32 => FaultStatusCode::SynchronousExternalAbortOnTranslationWalk0,
        0b010101u32 => FaultStatusCode::SynchronousExternalAbortOnTranslationWalk1,
        0b010110u32 => FaultStatusCode::SynchronousExternalAbortOnTranslationWalk2,
        0b010111u32 => FaultStatusCode::SynchronousExternalAbortOnTranslationWalk3,
        0b011100u32 => FaultStatusCode::SynchronousParityOrECCOnTranslationWalk0,
        0b011101u32 => FaultStatusCode::SynchronousParityOrECCOnTranslationWalk1,
        0b011110u32 => FaultStatusCode::SynchronousParityOrECCOnTranslationWalk2,
        0b011111u32 => FaultStatusCode::SynchronousParityOrECCOnTranslationWalk3,
        0b100001u32 => FaultStatusCode::AlignmentFault,
        0b110000u32 => FaultStatusCode::TlbConflictAbort,
        0b110001u32 => FaultStatusCode::UnsupportedAtomicHardwareUpdate,
        0b110100u32 => FaultStatusCode::LockdownFault,
        0b110101u32 => FaultStatusCode::UnsupportedExclusiveOrAtomicAccess,
        0b111101u32 => FaultStatusCode::SectionDomainFault,
        0b111110u32 => FaultStatusCode::PageDomainFault,
        v => FaultStatusCode::Unknown(v),
    }
}

impl From<u32> for FaultStatusCode {
    fn from(value: u32) -> (r: FaultStatusCode) {
        assert(value & 0b111111 == value % 64) by (bit_vector);
        match value & 0b111111 {
            0b000000 => FaultStatusCode::AddressSizeFault0,
            0b000001 => FaultStatusCode::AddressSizeFault1,
            0b000010 => FaultStatusCode::AddressSizeFault2,
            0b000011 => FaultStatusCode::AddressSizeFault3,
            0b000100 => FaultStatusCode::TranslationFault0,
            0b000101 => FaultStatusCode::TranslationFault1,
            0b000110 => FaultStatusCode::TranslationFault2,
            0b000111 => FaultStatusCode::TranslationFault3,
            0b001001 => FaultStatusCode::AccessFlagFault1,
            0b001010 => FaultStatusCode::AccessFlagFault2,
            0b001011 => FaultStatusCode::AccessFlagFault3,
            0b001101 => FaultStatusCode::PermissionFault1,
            0b001110 => FaultStatusCode::PermissionFault2,
            0b001111 => FaultStatusCode::PermissionFault3,
            0b010000 => FaultStatusCode::SynchronousExternalAbortNotOnTranslationWalk,
            0b011000 => FaultStatusCode::SynchronousParityOrECCNotOnTranslationWalk,
            0b010100 => FaultStatusCode::SynchronousExternalAbortOnTranslationWalk0,
            0b010101 => FaultStatusCode::SynchronousExternalAbortOnTranslationWalk1,
            0b010110 => FaultStatusCode::SynchronousExternalAbortOnTranslationWalk2,
            0b010111 => FaultStatusCode::SynchronousExternalAbortOnTranslationWalk3,
            0b011100 => FaultStatusCode::SynchronousParityOrECCOnTranslationWalk0,
            0b011101 => FaultStatusCode::SynchronousParityOrECCOnTranslationWalk1,
            0b011110 => FaultStatusCode::SynchronousParityOrECCOnTranslationWalk2,
            0b011111 => FaultStatusCode::SynchronousParityOrECCOnTranslationWalk3,
            0b100001 => FaultStatusCode::AlignmentFault,
            0b110000 => FaultStatusCode::TlbConflictAbort,
            0b110001 => FaultStatusCode::UnsupportedAtomicHardwareUpdate,
            0b110100 => FaultStatusCode::LockdownFault,
            0b110101 => FaultStatusCode::UnsupportedExclusiveOrAtomicAccess,
            0b111101 => FaultStatusCode::SectionDomainFault,
            0b111110 => FaultStatusCode::PageDomainFault,
            v => FaultStatusCode::Unknown(v),
        }
    }
}

impl vstd::std_specs::convert::FromSpecImpl<u32> for FaultStatusCode {
    open spec fn obeys_from_spec() -> bool {
        true
    }

    open spec fn from_spec(v: u32) -> Self {
        fault_status_code_of(v)
    }
}

/// What an instruction or data abort reports: whether a write caused it,
/// and its fault status code.
#[derive(Debug, PartialEq, Eq, Structural, Clone, Copy)]
pub struct AbortData {
    pub write: bool,
    pub fault_status_code: FaultStatusCode,
}

/// Bit 6 of an abort syndrome: the abort was caused by a write.
pub open spec fn write_not_read(value: u32) -> bool {
    (value / 64) % 2 == 1
}

pub open spec fn abort_data_of(value: u32) -> AbortData {
    AbortData { write: write_not_read(value), fault_status_code: fault_status_code_of(value) }
}

impl From<u32> for AbortData {
    fn from(value: u32) -> (r: AbortData) {
        assert((value & (1u32 << 6u32) > 0) == ((value / 64) % 2 == 1)) by (bit_vector);
        AbortData { write: (value & (0b1 << 6)) > 0, fault_status_code: FaultStatusCode::from(value) }
    }
}

impl vstd::std_specs::convert::FromSpecImpl<u32> for AbortData {
    open spec fn obeys_from_spec() -> bool {
        true
    }

    open spec fn from_spec(v: u32) -> Self {
        abort_data_of(v)
    }
}

/// A decoded exception syndrome (the value of ESR_EL1).
#[derive(Debug, PartialEq, Eq, Structural, Clone, Copy)]
pub enum Syndrome {
    Unknown,
    WfiWfe,
    SimdFp,
    IllegalExecutionState,
    Svc(u16),
    Hvc(u16),
    Smc(u16),
    MsrMrsSystem,
    InstructionAbort(AbortData),
    PCAlignmentFault,
    DataAbort(AbortData),
    SpAlignmentFault,
    TrappedFpu,
    SError,
    Breakpoint,
    Step,
    Watchpoint,
    Brk(u16),
    Other(u32),
}

/// The exception class: bits 31..26 of the syndrome.
pub open spec fn exception_class(esr: u32) -> int {
    esr as int / 0x4000000
}

/// The instruction-specific syndrome: bits 24..0.
pub open spec fn instruction_syndrome(esr: u32) -> u32 {
    esr % 0x2000000
}

/// The low sixteen bits of a value, as `as u16` keeps them.
pub open spec fn low16(v: u32) -> u16 {
    (v % 0x10000) as u16
}

pub open spec fn syndrome_of(esr: u32) -> Syndrome {
    let ec = exception_class(esr);
    let iss = instruction_syndrome(esr);
    if ec == 0b00_0000 {
        Syndrome::Unknown
    } else if ec == 0b00_0001 {
        Syndrome::WfiWfe
    } else if ec == 0b00_0111 {
        Syndrome::SimdFp
    } else if ec == 0b00_1110 {
        Syndrome::IllegalExecutionState
    } else if ec == 0b01_0101 {
        Syndrome::Svc(low16(iss))
    } else if ec == 0b01_0110 {
        Syndrome::Hvc(low16(iss))
    } else if ec == 0b01_0111 {
        Syndrome::Smc(low16(iss))
    } else if ec == 0b01_1000 {
        Syndrome::MsrMrsSystem
    } else if 0b10_0000 <= ec <= 0b10_0001 {
        Syndrome::InstructionAbort(abort_data_of(iss))
    } else if ec == 0b10_0010 {
        Syndrome::PCAlignmentFault
    } else if 0b10_0100 <= ec <= 0b10_0101 {
        Syndrome::DataAbort(abort_data_of(iss))
    } else if ec == 0b10_0110 {
        Syndrome::SpAlignmentFault
    } else if 0b10_1000 <= ec <= 0b10_1100 {
        Syndrome::TrappedFpu
    } else if ec == 0b10_1111 {
        Syndrome::SError
    } else if 0b11_0000 <= ec <= 0b11_0001 {
        Syndrome::Breakpoint
    } else if 0b11_0010 <= ec <= 0b11_0011 {
        Syndrome::Step
    } else if 0b11_0100 <= ec <= 0b11_0101 {
        Syndrome::Watchpoint
    } else if ec == 0b11_1100 {
        Syndrome::Brk(low16(esr))
    } else {
        Syndrome::Other(esr)
    }
}

/// The two fields every decoder reads off a raw syndrome.
pub(crate) fn split_syndrome(esr: u32) -> (r: (u16, u32))
    ensures
        r.0 == exception_class(esr),
        r.1 == instruction_syndrome(esr),
{
    assert(esr >> 26 == esr / 0x4000000) by (bit_vector);
    assert(esr & 0x1ff_ffffu32 == esr % 0x2000000) by (bit_vector);
    assert(esr >> 26 < 64) by (bit_vector);
    ((esr >> 26) as u16, esr & 0x1ff_ffff)
}

/// Truncation to the low sixteen bits.
pub(crate) fn truncate16(v: u32) -> (r: u16)
    ensures
        r == low16(v),
{
    (v % 0x10000) as u16
}

impl From<u32> for Syndrome {
    /// Converts a raw syndrome value (ESR) into a `Syndrome` (ref: D1.10.4).
    fn from(esr: u32) -> (r: Syndrome) {
        let (exception_class, instruction_syndrome) = split_syndrome(esr);
        match exception_class {
            0b00_0000 => Syndrome::Unknown,
            0b00_0001 => Syndrome::WfiWfe,
            0b00_0111 => Syndrome::SimdFp,
            0b00_1110 => Syndrome::IllegalExecutionState,
            0b01_0101 => Syndrome::Svc(truncate16(instruction_syndrome)),
            0b01_0110 => Syndrome::Hvc(truncate16(instruction_syndrome)),
            0b01_0111 => Syndrome::Smc(truncate16(instruction_syndrome)),
            0b01_1000 => Syndrome::MsrMrsSystem,
            0b10_0000..=0b10_0001 => Syndrome::InstructionAbort(AbortData::from(instruction_syndrome)),
            0b10_0010 => Syndrome::PCAlignmentFault,
            0b10_0100..=0b10_0101 => Syndrome::DataAbort(AbortData::from(instruction_syndrome)),
            0b10_0110 => Syndrome::SpAlignmentFault,
            0b10_1000..=0b10_1100 => Syndrome::TrappedFpu,
            0b10_1111 => Syndrome::SError,
            0b11_0000..=0b11_0001 => Syndrome::Breakpoint,
            0b11_0010..=0b11_0011 => Syndrome::Step,
            0b11_0100..=0b11_0101 => Syndrome::Watchpoint,
            0b11_1100 => Syndrome::Brk(truncate16(esr)),
            _ => Syndrome::Other(esr),
        }
    }
}

impl vstd::std_specs::convert::FromSpecImpl<u32> for Syndrome {
    open spec fn obeys_from_spec() -> bool {
        true
    }

    open spec fn from_spec(v: u32) -> Self {
        syndrome_of(v)
    }
}

} // verus!

verus! {

/// The decimal digit `d` (for `d` below ten).
pub open spec fn digit(d: nat) -> char {
    if d == 0 { '0' } else if d == 1 { '1' } else if d == 2 { '2' } else if d == 3 { '3' } else if d == 4 { '4' }
    else if d == 5 { '5' } else if d == 6 { '6' } else if d == 7 { '7' } else if d == 8 { '8' } else { '9' }
}

/// The decimal numeral of `n`, without leading zeros.
pub open spec fn decimal(n: nat) -> Seq<char>
    decreases n,
{
    if n < 10 {
        seq![digit(n)]
    } else {
        decimal(n / 10).push(digit(n % 10))
    }
}

/// `true` or `false`.
pub open spec fn bool_text(b: bool) -> Seq<char> {
    if b {
        "true"@
    } else {
        "false"@
    }
}

/// The one-character text of digit `d`.
fn digit_text(d: u32) -> (r: &'static str)
    requires
        d < 10,
    ensures
        r@ == seq![digit(d as nat)],
{
    if d == 0 {
        proof {
            reveal_strlit("0");
        }
        return "0";
    }
    if d == 1 {
        proof {
            reveal_strlit("1");
        }
        return "1";
    }
    if d == 2 {
        proof {
            reveal_strlit("2");
        }
        return "2";
    }
    if d == 3 {
        proof {
            reveal_strlit("3");
        }
        return "3";
    }
    if d == 4 {
        proof {
            reveal_strlit("4");
        }
        return "4";
    }
    if d == 5 {
        proof {
            reveal_strlit("5");
        }
        return "5";
    }
    if d == 6 {
        proof {
            reveal_strlit("6");
        }
        return "6";
    }
    if d == 7 {
        proof {
            reveal_strlit("7");
        }
        return "7";
    }
    if d == 8 {
        proof {
            reveal_strlit("8");
        }
        return "8";
    }
    proof {
        reveal_strlit("9");
    }
    "9"
}

/// Appends the decimal numeral of `n` to `out`.
fn push_decimal(out: &mut String, n: u32)
    ensures
        final(out)@ == old(out)@ + decimal(n as nat),
    decreases n,
{
    if n >= 10 {
        push_decimal(out, n / 10);
    }
    out.append(digit_text(n % 10));
    proof {
        if n >= 10 {
            assert(decimal(n as nat) =~= decimal((n / 10) as nat) + seq![digit((n % 10) as nat)]);
        }
    }
}

/// Appends `true` or `false` to `out`.
fn push_bool(out: &mut String, b: bool)
    ensures
        final(out)@ == old(out)@ + bool_text(b),
{
    if b {
        out.append("true");
    } else {
        out.append("false");
    }
}

/// The name of a fault status code, as it is printed (`Unknown` with its
/// value in brackets).
pub open spec fn fault_status_code_text(c: FaultStatusCode) -> Seq<char> {
    match c {
        FaultStatusCode::AddressSizeFault0 => "AddressSizeFault0"@,
        FaultStatusCode::AddressSizeFault1 => "AddressSizeFault1"@,
        FaultStatusCode::AddressSizeFault2 => "AddressSizeFault2"@,
        FaultStatusCode::AddressSizeFault3 => "AddressSizeFault3"@,
        FaultStatusCode::TranslationFault0 => "TranslationFault0"@,
        FaultStatusCode::TranslationFault1 => "TranslationFault1"@,
        FaultStatusCode::TranslationFault2 => "TranslationFault2"@,
        FaultStatusCode::TranslationFault3 => "TranslationFault3"@,
        FaultStatusCode::AccessFlagFault1 => "AccessFlagFault1"@,
        FaultStatusCode::AccessFlagFault2 => "AccessFlagFault2"@,
        FaultStatusCode::AccessFlagFault3 => "AccessFlagFault3"@,
        FaultStatusCode::PermissionFault1 => "PermissionFault1"@,
        FaultStatusCode::PermissionFault2 => "PermissionFault2"@,
        FaultStatusCode::PermissionFault3 => "PermissionFault3"@,
        FaultStatusCode::SynchronousExternalAbortNotOnTranslationWalk => "SynchronousExternalAbortNotOnTranslationWalk"@,
        FaultStatusCode::SynchronousParityOrECCNotOnTranslationWalk => "SynchronousParityOrECCNotOnTranslationWalk"@,
        FaultStatusCode::SynchronousExternalAbortOnTranslationWalk0 => "SynchronousExternalAbortOnTranslationWalk0"@,
        FaultStatusCode::SynchronousExternalAbortOnTranslationWalk1 => "SynchronousExternalAbortOnTranslationWalk1"@,
        FaultStatusCode::SynchronousExternalAbortOnTranslationWalk2 => "SynchronousExternalAbortOnTranslationWalk2"@,
        FaultStatusCode::SynchronousExternalAbortOnTranslationWalk3 => "SynchronousExternalAbortOnTranslationWalk3"@,
        FaultStatusCode::SynchronousParityOrECCOnTranslationWalk0 => "SynchronousParityOrECCOnTranslationWalk0"@,
        FaultStatusCode::SynchronousParityOrECCOnTranslationWalk1 => "SynchronousParityOrECCOnTranslationWalk1"@,
        FaultStatusCode::SynchronousParityOrECCOnTranslationWalk2 => "SynchronousParityOrECCOnTranslationWalk2"@,
        FaultStatusCode::SynchronousParityOrECCOnTranslationWalk3 => "SynchronousParityOrECCOnTranslationWalk3"@,
        FaultStatusCode::AlignmentFault => "AlignmentFault"@,
        FaultStatusCode::TlbConflictAbort => "TlbConflictAbort"@,
        FaultStatusCode::UnsupportedAtomicHardwareUpdate => "UnsupportedAtomicHardwareUpdate"@,
        FaultStatusCode::LockdownFault => "LockdownFault"@,
        FaultStatusCode::UnsupportedExclusiveOrAtomicAccess => "UnsupportedExclusiveOrAtomicAccess"@,
        FaultStatusCode::SectionDomainFault => "SectionDomainFault"@,
        FaultStatusCode::PageDomainFault => "PageDomainFault"@,
        FaultStatusCode::Unknown(v) => "Unknown("@ + decimal(v as nat) + ")"@,
    }
}

/// How a syndrome is printed: its name, followed for the variants that
/// carry data by that data as named fields in braces.
pub open spec fn syndrome_text(s: Syndrome) -> Seq<char> {
    match s {
        Syndrome::Unknown => "Unknown"@,
        Syndrome::WfiWfe => "WfiWfe"@,
        Syndrome::SimdFp => "SimdFp"@,
        Syndrome::IllegalExecutionState => "IllegalExecutionState"@,
        Syndrome::MsrMrsSystem => "MsrMrsSystem"@,
        Syndrome::PCAlignmentFault => "PCAlignmentFault"@,
        Syndrome::SpAlignmentFault => "SpAlignmentFault"@,
        Syndrome::TrappedFpu => "TrappedFpu"@,
        Syndrome::SError => "SError"@,
        Syndrome::Breakpoint => "Breakpoint"@,
        Syndrome::Step => "Step"@,
        Syndrome::Watchpoint => "Watchpoint"@,
        Syndrome::Svc(data) => "Svc { data: "@ + decimal(data as nat) + " }"@,
        Syndrome::Hvc(data) => "Hvc { data: "@ + decimal(data as nat) + " }"@,
        Syndrome::Smc(data) => "Smc { data: "@ + decimal(data as nat) + " }"@,
        Syndrome::Brk(data) => "Brk { data: "@ + decimal(data as nat) + " }"@,
        Syndrome::Other(data) => "Other { data: "@ + decimal(data as nat) + " }"@,
        Syndrome::InstructionAbort(a) => "InstructionAbort { write: "@ + bool_text(a.write) + ", fault_status_code: "@
            + fault_status_code_text(a.fault_status_code) + " }"@,
        Syndrome::DataAbort(a) => "DataAbort { write: "@ + bool_text(a.write) + ", fault_status_code: "@
            + fault_status_code_text(a.fault_status_code) + " }"@,
    }
}

impl FaultStatusCode {
    /// The name of the status code (see `fault_status_code_text`).
    pub fn describe(&self) -> (r: String)
        ensures
            r@ == fault_status_code_text(*self),
    {
        match self {
            FaultStatusCode::AddressSizeFault0 => String::from_str("AddressSizeFault0"),
            FaultStatusCode::AddressSizeFault1 => String::from_str("AddressSizeFault1"),
            FaultStatusCode::AddressSizeFault2 => String::from_str("AddressSizeFault2"),
            FaultStatusCode::AddressSizeFault3 => String::from_str("AddressSizeFault3"),
            FaultStatusCode::TranslationFault0 => String::from_str("TranslationFault0"),
            FaultStatusCode::TranslationFault1 => String::from_str("TranslationFault1"),
            FaultStatusCode::TranslationFault2 => String::from_str("TranslationFault2"),
            FaultStatusCode::TranslationFault3 => String::from_str("TranslationFault3"),
            FaultStatusCode::AccessFlagFault1 => String::from_str("AccessFlagFault1"),
            FaultStatusCode::AccessFlagFault2 => String::from_str("AccessFlagFault2"),
            FaultStatusCode::AccessFlagFault3 => String::from_str("AccessFlagFault3"),
            FaultStatusCode::PermissionFault1 => String::from_str("PermissionFault1"),
            FaultStatusCode::PermissionFault2 => String::from_str("PermissionFault2"),
            FaultStatusCode::PermissionFault3 => String::from_str("PermissionFault3"),
            FaultStatusCode::SynchronousExternalAbortNotOnTranslationWalk => String::from_str("SynchronousExternalAbortNotOnTranslationWalk"),
            FaultStatusCode::SynchronousParityOrECCNotOnTranslationWalk => String::from_str("SynchronousParityOrECCNotOnTranslationWalk"),
            FaultStatusCode::SynchronousExternalAbortOnTranslationWalk0 => String::from_str("SynchronousExternalAbortOnTranslationWalk0"),
            FaultStatusCode::SynchronousExternalAbortOnTranslationWalk1 => String::from_str("SynchronousExternalAbortOnTranslationWalk1"),
            FaultStatusCode::SynchronousExternalAbortOnTranslationWalk2 => String::from_str("SynchronousExternalAbortOnTranslationWalk2"),
            FaultStatusCode::SynchronousExternalAbortOnTranslationWalk3 => String::from_str("SynchronousExternalAbortOnTranslationWalk3"),
            FaultStatusCode::SynchronousParityOrECCOnTranslationWalk0 => String::from_str("SynchronousParityOrECCOnTranslationWalk0"),
            FaultStatusCode::SynchronousParityOrECCOnTranslationWalk1 => String::from_str("SynchronousParityOrECCOnTranslationWalk1"),
            FaultStatusCode::SynchronousParityOrECCOnTranslationWalk2 => String::from_str("SynchronousParityOrECCOnTranslationWalk2"),
            FaultStatusCode::SynchronousParityOrECCOnTranslationWalk3 => String::from_str("SynchronousParityOrECCOnTranslationWalk3"),
            FaultStatusCode::AlignmentFault => String::from_str("AlignmentFault"),
            FaultStatusCode::TlbConflictAbort => String::from_str("TlbConflictAbort"),
            FaultStatusCode::UnsupportedAtomicHardwareUpdate => String::from_str("UnsupportedAtomicHardwareUpdate"),
            FaultStatusCode::LockdownFault => String::from_str("LockdownFault"),
            FaultStatusCode::UnsupportedExclusiveOrAtomicAccess => String::from_str("UnsupportedExclusiveOrAtomicAccess"),
            FaultStatusCode::SectionDomainFault => String::from_str("SectionDomainFault"),
            FaultStatusCode::PageDomainFault => String::from_str("PageDomainFault"),
            FaultStatusCode::Unknown(v) => {
                let mut s = String::from_str("Unknown(");
                push_decimal(&mut s, *v);
                s.append(")");
                s
            },
        }
    }
}

impl Syndrome {
    /// How the syndrome is printed (see `syndrome_text`).
    pub fn describe(&self) -> (r: String)
        ensures
            r@ == syndrome_text(*self),
    {
        match self {
            Syndrome::Unknown => String::from_str("Unknown"),
            Syndrome::WfiWfe => String::from_str("WfiWfe"),
            Syndrome::SimdFp => String::from_str("SimdFp"),
            Syndrome::IllegalExecutionState => String::from_str("IllegalExecutionState"),
            Syndrome::MsrMrsSystem => String::from_str("MsrMrsSystem"),
            Syndrome::PCAlignmentFault => String::from_str("PCAlignmentFault"),
            Syndrome::SpAlignmentFault => String::from_str("SpAlignmentFault"),
            Syndrome::TrappedFpu => String::from_str("TrappedFpu"),
            Syndrome::SError => String::from_str("SError"),
            Syndrome::Breakpoint => String::from_str("Breakpoint"),
            Syndrome::Step => String::from_str("Step"),
            Syndrome::Watchpoint => String::from_str("Watchpoint"),
            Syndrome::Svc(data) => {
                let mut s = String::from_str("Svc { data: ");
                push_decimal(&mut s, *data as u32);
                s.append(" }");
                s
            },
            Syndrome::Hvc(data) => {
                let mut s = String::from_str("Hvc { data: ");
                push_decimal(&mut s, *data as u32);
                s.append(" }");
                s
            },
            Syndrome::Smc(data) => {
                let mut s = String::from_str("Smc { data: ");
                push_decimal(&mut s, *data as u32);
                s.append(" }");
                s
            },
            Syndrome::Brk(data) => {
                let mut s = String::from_str("Brk { data: ");
                push_decimal(&mut s, *data as u32);
                s.append(" }");
                s
            },
            Syndrome::Other(data) => {
                let mut s = String::from_str("Other { data: ");
                push_decimal(&mut s, *data);
                s.append(" }");
                s
            },
            Syndrome::InstructionAbort(a) => {
                let mut s = String::from_str("InstructionAbort { write: ");
                push_bool(&mut s, a.write);
                s.append(", fault_status_code: ");
                s.append(a.fault_status_code.describe().as_str());
                s.append(" }");
                s
            },
            Syndrome::DataAbort(a) => {
                let mut s = String::from_str("DataAbort { write: ");
                push_bool(&mut s, a.write);
                s.append(", fault_status_code: ");
                s.append(a.fault_status_code.describe().as_str());
                s.append(" }");
                s
            },
        }
    }
}

} // verus!

verus! {

/// The exception classes of the ARM exception-class table (bits 31..26 of
/// the syndrome) decode as that table says: aborts carry the write bit
/// (bit 6) and the fault status code (bits 5..0), calls and `brk` their
/// 16-bit immediate, and a class the table does not list is kept whole.
pub proof fn lemma_syndrome_classes(esr: u32)
    ensures
        ({
            let ec = esr as int / 0x4000000;
            let imm = (esr % 0x10000) as u16;
            let abort = AbortData {
                write: (esr / 64) % 2 == 1,
                fault_status_code: fault_status_code_of(esr % 64),
            };
            &&& ec == 0x00 ==> syndrome_of(esr) == Syndrome::Unknown
            &&& ec == 0x01 ==> syndrome_of(esr) == Syndrome::WfiWfe
            &&& ec == 0x07 ==> syndrome_of(esr) == Syndrome::SimdFp
            &&& ec == 0x0e ==> syndrome_of(esr) == Syndrome::IllegalExecutionState
            &&& ec == 0x15 ==> syndrome_of(esr) == Syndrome::Svc(imm)
            &&& ec == 0x16 ==> syndrome_of(esr) == Syndrome::Hvc(imm)
            &&& ec == 0x17 ==> syndrome_of(esr) == Syndrome::Smc(imm)
            &&& ec == 0x18 ==> syndrome_of(esr) == Syndrome::MsrMrsSystem
            &&& (ec == 0x20 || ec == 0x21) ==> syndrome_of(esr) == Syndrome::InstructionAbort(abort)
            &&& ec == 0x22 ==> syndrome_of(esr) == Syndrome::PCAlignmentFault
            &&& (ec == 0x24 || ec == 0x25) ==> syndrome_of(esr) == Syndrome::DataAbort(abort)
            &&& ec == 0x26 ==> syndrome_of(esr) == Syndrome::SpAlignmentFault
            &&& 0x28 <= ec <= 0x2c ==> syndrome_of(esr) == Syndrome::TrappedFpu
            &&& ec == 0x2f ==> syndrome_of(esr) == Syndrome::SError
            &&& (ec == 0x30 || ec == 0x31) ==> syndrome_of(esr) == Syndrome::Breakpoint
            &&& (ec == 0x32 || ec == 0x33) ==> syndrome_of(esr) == Syndrome::Step
            &&& (ec == 0x34 || ec == 0x35) ==> syndrome_of(esr) == Syndrome::Watchpoint
            &&& ec == 0x3c ==> syndrome_of(esr) == Syndrome::Brk(imm)
            &&& !(ec <= 0x01 || ec == 0x07 || ec == 0x0e || 0x15 <= ec <= 0x18 || 0x20 <= ec <= 0x22 || 0x24
                <= ec <= 0x26 || 0x28 <= ec <= 0x2c || 0x2f <= ec <= 0x35 || ec == 0x3c) ==> syndrome_of(esr)
                == Syndrome::Other(esr)
        }),
{
    assert((esr % 0x2000000) % 0x10000 == esr % 0x10000) by (bit_vector);
    assert(((esr % 0x2000000) / 64) % 2 == (esr / 64) % 2) by (bit_vector);
    assert((esr % 0x2000000) % 64 == esr % 64) by (bit_vector);
    assert(fault_status_code_of(esr % 0x2000000) == fault_status_code_of(esr % 64)) by {
        assert((esr % 64) % 64 == esr % 64) by (bit_vector);
    }
}

} // verus!

verus! {

/// The coarse fault kind and the fine status code agree on every status
/// value below 64: the address-size, translation, access-flag and
/// permission codes are exactly the values of those kinds, with the level
/// in the low two bits, and the alignment and TLB-conflict codes are the
/// values of those kinds.
pub proof fn lemma_fault_kind_matches_status_code(v: u32)
    requires
        v < 64,
    ensures
        ({
            let c = fault_status_code_of(v);
            &&& (fault_of(v) == Fault::AddressSize) <==> (c == FaultStatusCode::AddressSizeFault0 || c == FaultStatusCode::AddressSizeFault1 || c == FaultStatusCode::AddressSizeFault2 || c == FaultStatusCode::AddressSizeFault3)
            &&& (fault_of(v) == Fault::Translation) <==> (c == FaultStatusCode::TranslationFault0 || c == FaultStatusCode::TranslationFault1 || c == FaultStatusCode::TranslationFault2 || c == FaultStatusCode::TranslationFault3)
            &&& (fault_of(v) == Fault::AccessFlag) <==> (c == FaultStatusCode::AccessFlagFault1 || c == FaultStatusCode::AccessFlagFault2 || c == FaultStatusCode::AccessFlagFault3)
            &&& (fault_of(v) == Fault::Permission) <==> (c == FaultStatusCode::PermissionFault1 || c == FaultStatusCode::PermissionFault2 || c == FaultStatusCode::PermissionFault3)
            &&& (fault_of(v) == Fault::Alignment) <==> c == FaultStatusCode::AlignmentFault
            &&& (fault_of(v) == Fault::TlbConflict) <==> c == FaultStatusCode::TlbConflictAbort
            &&& v % 4 == 0 ==> !(c == FaultStatusCode::TranslationFault1 || c == FaultStatusCode::TranslationFault2 || c == FaultStatusCode::TranslationFault3 || c == FaultStatusCode::PermissionFault1 || c == FaultStatusCode::PermissionFault2 || c == FaultStatusCode::PermissionFault3)
            &&& c == FaultStatusCode::TranslationFault3 ==> v % 4 == 3
            &&& c == FaultStatusCode::PermissionFault3 ==> v % 4 == 3
            &&& c == FaultStatusCode::TranslationFault1 ==> v % 4 == 1
            &&& c == FaultStatusCode::PermissionFault1 ==> v % 4 == 1
        }),
{
}

} // verus!

