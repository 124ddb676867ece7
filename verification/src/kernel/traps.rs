pub mod frame;
pub mod syscall;

use vstd::prelude::*;

use crate::kernel::syndrome::{AbortData, FaultStatusCode, Syndrome};

verus! {

/// The kind of exception that was taken.
#[derive(Debug, PartialEq, Eq, Structural, Copy, Clone)]
pub enum Kind {
    Synchronous,
    Irq,
    Fiq,
    SError,
}

/// Where the exception was taken from.
#[derive(Debug, PartialEq, Eq, Structural, Copy, Clone)]
pub enum Source {
    CurrentSpEl0,
    CurrentSpElx,
    LowerAArch64,
    LowerAArch32,
}

/// The source and kind of an exception, as the vector table reports them.
#[derive(Debug, PartialEq, Eq, Structural, Copy, Clone)]
pub struct Info {
    source: Source,
    kind: Kind,
}

impl Info {
    pub fn new(source: Source, kind: Kind) -> (r: Info)
        ensures
            r.source() == source,
            r.kind() == kind,
    {
        Info { source, kind }
    }

    pub closed spec fn source(self) -> Source {
        self.source
    }

    pub closed spec fn kind(self) -> Kind {
        self.kind
    }

    pub fn get_kind(&self) -> (r: Kind)
        ensures
            r == self.kind(),
    {
        self.kind
    }

    pub fn get_source(&self) -> (r: Source)
        ensures
            r == self.source(),
    {
        self.source
    }
}

/// What the exception handler does with an exception.
#[derive(Debug, PartialEq, Eq, Structural, Copy, Clone)]
pub enum ExceptionAction {
    /// A `brk`: resume at the instruction after it (`elr + 4`).
    SkipBreakpoint,
    /// A supervisor call with the given immediate.
    Syscall(u16),
    /// An instruction or data abort, handed to the memory-abort handler.
    MemoryAbort(AbortData),
    /// An IRQ: the pending global (core 0 only) and local interrupts are serviced.
    ServiceInterrupts,
    /// Anything else is an error, and the current process is switched out as dead.
    KillProcess,
}

pub open spec fn exception_action_of(info: Info, syndrome: Syndrome) -> ExceptionAction {
    match info.kind() {
        Kind::Synchronous => match syndrome {
            Syndrome::Brk(_) => ExceptionAction::SkipBreakpoint,
            Syndrome::Svc(s) => ExceptionAction::Syscall(s),
            Syndrome::DataAbort(a) => ExceptionAction::MemoryAbort(a),
            Syndrome::InstructionAbort(a) => ExceptionAction::MemoryAbort(a),
            _ => ExceptionAction::KillProcess,
        },
        Kind::Irq => ExceptionAction::ServiceInterrupts,
        _ => ExceptionAction::KillProcess,
    }
}

/// Decides how an exception of the given kind and syndrome is handled.
pub fn handle_exception(info: Info, syndrome: Syndrome) -> (r: ExceptionAction)
    ensures
        r == exception_action_of(info, syndrome),
{
    match info.kind {
        Kind::Synchronous => match syndrome {
            Syndrome::Brk(_) => ExceptionAction::SkipBreakpoint,
            Syndrome::Svc(s) => ExceptionAction::Syscall(s),
            Syndrome::DataAbort(abort_data) => ExceptionAction::MemoryAbort(abort_data),
            Syndrome::InstructionAbort(abort_data) => ExceptionAction::MemoryAbort(abort_data),
            _ => ExceptionAction::KillProcess,
        },
        Kind::Irq => ExceptionAction::ServiceInterrupts,
        Kind::Fiq => ExceptionAction::KillProcess,
        _ => ExceptionAction::KillProcess,
    }
}

/// A memory abort is resolved only when it is a write that hit a level-3
/// permission fault (a copy-on-write page); every other abort is an error.
pub fn handle_memory_abort(abort_data: AbortData) -> (resolve_copy_on_write: bool)
    ensures
        resolve_copy_on_write <==> abort_data.write && abort_data.fault_status_code
            == FaultStatusCode::PermissionFault3,
{
    if !abort_data.write {
        return false;
    }
    match abort_data.fault_status_code {
        FaultStatusCode::PermissionFault3 => true,
        _ => false,
    }
}

} // verus!
