use rustos::kern::syndrome::Syndrome as KernSyndrome;
use rustos::kern::frame::TrapFrame as KernTrapFrame;
use rustos::kern::traps::handle_exception as kern_handle_exception;
use rustos::kernel::syndrome::{AbortData, Fault, FaultStatusCode, Syndrome};
use rustos::kernel::traps::{handle_exception, handle_memory_abort, ExceptionAction, Info, Kind, Source};

const SVC: u32 = 0x15 << 26;
const DATA_ABORT: u32 = 0x24 << 26;
const INSTRUCTION_ABORT: u32 = 0x20 << 26;
const BRK: u32 = 0x3c << 26;

#[test]
fn syndrome_decodes_svc_with_immediate() {
    assert_eq!(Syndrome::from(SVC | 42), Syndrome::Svc(42));
    assert_eq!(Syndrome::from(SVC | 0x1_0007), Syndrome::Svc(7));
}

#[test]
fn syndrome_decodes_brk_from_low_bits_of_whole_value() {
    assert_eq!(Syndrome::from(BRK | 1), Syndrome::Brk(1));
}

#[test]
fn syndrome_decodes_simple_classes() {
    assert_eq!(Syndrome::from(0), Syndrome::Unknown);
    assert_eq!(Syndrome::from(1 << 26), Syndrome::WfiWfe);
    assert_eq!(Syndrome::from(0x07 << 26), Syndrome::SimdFp);
    assert_eq!(Syndrome::from(0x0e << 26), Syndrome::IllegalExecutionState);
    assert_eq!(Syndrome::from(0x16 << 26 | 3), Syndrome::Hvc(3));
    assert_eq!(Syndrome::from(0x17 << 26 | 4), Syndrome::Smc(4));
    assert_eq!(Syndrome::from(0x18 << 26), Syndrome::MsrMrsSystem);
    assert_eq!(Syndrome::from(0x22 << 26), Syndrome::PCAlignmentFault);
    assert_eq!(Syndrome::from(0x26 << 26), Syndrome::SpAlignmentFault);
    assert_eq!(Syndrome::from(0x2c << 26), Syndrome::TrappedFpu);
    assert_eq!(Syndrome::from(0x2f << 26), Syndrome::SError);
    assert_eq!(Syndrome::from(0x31 << 26), Syndrome::Breakpoint);
    assert_eq!(Syndrome::from(0x32 << 26), Syndrome::Step);
    assert_eq!(Syndrome::from(0x35 << 26), Syndrome::Watchpoint);
}

#[test]
fn syndrome_keeps_unknown_classes_whole() {
    let esr = (0x3f << 26) | 0x1234;
    assert_eq!(Syndrome::from(esr), Syndrome::Other(esr));
}

#[test]
fn syndrome_decodes_data_abort_write_permission_fault() {
    let esr = DATA_ABORT | (1 << 6) | 0b001111;
    assert_eq!(
        Syndrome::from(esr),
        Syndrome::DataAbort(AbortData { write: true, fault_status_code: FaultStatusCode::PermissionFault3 })
    );
}

#[test]
fn syndrome_decodes_instruction_abort_read_translation_fault() {
    let esr = INSTRUCTION_ABORT | 0b000111;
    assert_eq!(
        Syndrome::from(esr),
        Syndrome::InstructionAbort(AbortData { write: false, fault_status_code: FaultStatusCode::TranslationFault3 })
    );
}

#[test]
fn fault_status_codes_by_low_six_bits() {
    assert_eq!(FaultStatusCode::from(0b100001), FaultStatusCode::AlignmentFault);
    assert_eq!(FaultStatusCode::from(0b110000 | 0x40), FaultStatusCode::TlbConflictAbort);
    assert_eq!(FaultStatusCode::from(0b111110), FaultStatusCode::PageDomainFault);
    assert_eq!(FaultStatusCode::from(0b001000), FaultStatusCode::Unknown(0b001000));
}

#[test]
fn fault_classification() {
    assert_eq!(Fault::from(2), Fault::AddressSize);
    assert_eq!(Fault::from(5), Fault::Translation);
    assert_eq!(Fault::from(0b1010), Fault::AccessFlag);
    assert_eq!(Fault::from(0b1110), Fault::Permission);
    assert_eq!(Fault::from(0b100001), Fault::Alignment);
    assert_eq!(Fault::from(0b110000), Fault::TlbConflict);
    assert_eq!(Fault::from(0b000101), Fault::Translation);
    assert_eq!(Fault::from(0b001110), Fault::Permission);
    assert_eq!(Fault::from(100001), Fault::Other(161));
    assert_eq!(Fault::from(0x108), Fault::Other(0x08));
}

#[test]
fn kern_syndrome_reports_abort_kind_and_level() {
    let esr = DATA_ABORT | 0b1110;
    assert_eq!(KernSyndrome::from(esr), KernSyndrome::DataAbort { kind: Fault::Permission, level: 2 });
    assert_eq!(KernSyndrome::from(SVC | 9), KernSyndrome::Svc(9));
}

#[test]
fn exception_actions() {
    let sync = Info::new(Source::LowerAArch64, Kind::Synchronous);
    assert_eq!(handle_exception(sync, Syndrome::Brk(3)), ExceptionAction::SkipBreakpoint);
    assert_eq!(handle_exception(sync, Syndrome::Svc(5)), ExceptionAction::Syscall(5));
    let abort = AbortData { write: true, fault_status_code: FaultStatusCode::PermissionFault3 };
    assert_eq!(handle_exception(sync, Syndrome::DataAbort(abort)), ExceptionAction::MemoryAbort(abort));
    assert_eq!(handle_exception(sync, Syndrome::Unknown), ExceptionAction::KillProcess);
    let irq = Info::new(Source::CurrentSpElx, Kind::Irq);
    assert_eq!(handle_exception(irq, Syndrome::Unknown), ExceptionAction::ServiceInterrupts);
    let fiq = Info::new(Source::CurrentSpElx, Kind::Fiq);
    assert_eq!(handle_exception(fiq, Syndrome::Svc(1)), ExceptionAction::KillProcess);
    assert_eq!(irq.get_kind(), Kind::Irq);
    assert_eq!(irq.get_source(), Source::CurrentSpElx);
}

#[test]
fn only_copy_on_write_faults_are_resolved() {
    assert!(handle_memory_abort(AbortData { write: true, fault_status_code: FaultStatusCode::PermissionFault3 }));
    assert!(!handle_memory_abort(AbortData { write: false, fault_status_code: FaultStatusCode::PermissionFault3 }));
    assert!(!handle_memory_abort(AbortData { write: true, fault_status_code: FaultStatusCode::TranslationFault3 }));
}

#[test]
fn kern_skips_only_synchronous_brk() {
    let sync = Info::new(Source::CurrentSpEl0, Kind::Synchronous);
    let mut tf = KernTrapFrame::zeroed();
    tf.elr = 0x8_0000;
    tf.xs[3] = 7;
    kern_handle_exception(sync, BRK | 1, &mut tf);
    assert_eq!(tf.elr, 0x8_0004);
    assert_eq!(tf.xs[3], 7);
    kern_handle_exception(sync, SVC | 1, &mut tf);
    assert_eq!(tf.elr, 0x8_0004);
    let irq = Info::new(Source::CurrentSpEl0, Kind::Irq);
    kern_handle_exception(irq, BRK | 1, &mut tf);
    assert_eq!(tf.elr, 0x8_0004);
    let mut expected = KernTrapFrame::zeroed();
    expected.elr = 0x8_0004;
    expected.xs[3] = 7;
    assert_eq!(tf, expected);
}

#[test]
fn kern_syndrome_takes_the_abort_kind_from_the_status_bits() {
    assert_eq!(
        KernSyndrome::from(0x9000_0045),
        KernSyndrome::DataAbort { kind: Fault::Translation, level: 1 }
    );
    assert_eq!(
        KernSyndrome::from(INSTRUCTION_ABORT | 0b1000_1010),
        KernSyndrome::InstructionAbort { kind: Fault::AccessFlag, level: 2 }
    );
}

#[test]
fn syndromes_print_their_name_and_fields() {
    assert_eq!(Syndrome::Unknown.describe(), "Unknown");
    assert_eq!(Syndrome::WfiWfe.describe(), "WfiWfe");
    assert_eq!(Syndrome::Svc(42).describe(), "Svc { data: 42 }");
    assert_eq!(Syndrome::Brk(0).describe(), "Brk { data: 0 }");
    assert_eq!(Syndrome::Other(0x1234).describe(), "Other { data: 4660 }");
    assert_eq!(Syndrome::Hvc(65535).describe(), "Hvc { data: 65535 }");
    let abort = AbortData { write: true, fault_status_code: FaultStatusCode::TranslationFault1 };
    assert_eq!(
        Syndrome::DataAbort(abort).describe(),
        "DataAbort { write: true, fault_status_code: TranslationFault1 }"
    );
    let read = AbortData { write: false, fault_status_code: FaultStatusCode::Unknown(63) };
    assert_eq!(
        Syndrome::InstructionAbort(read).describe(),
        "InstructionAbort { write: false, fault_status_code: Unknown(63) }"
    );
    assert_eq!(FaultStatusCode::PermissionFault2.describe(), "PermissionFault2");
}

#[test]
fn kern_syndrome_reaches_alignment_and_tlb_conflict_faults() {
    assert_eq!(
        KernSyndrome::from(DATA_ABORT | 0b100001),
        KernSyndrome::DataAbort { kind: Fault::Alignment, level: 1 }
    );
    assert_eq!(
        KernSyndrome::from(INSTRUCTION_ABORT | 0b110000),
        KernSyndrome::InstructionAbort { kind: Fault::TlbConflict, level: 0 }
    );
}
