//! Architectural exceptions raised by the guest.
//!
//! They propagate as `Result<T, Exception>` up to the fetch→decode→execute loop,
//! where trap handling records them in the machine CSRs. Variant names follow
//! the mcause table of the privileged architecture.

use vstd::prelude::*;

verus! {

#[derive(Debug, Clone, Copy, PartialEq, Eq, Structural)]
pub enum Exception {
    /// EBREAK executed (debugger breakpoint)
    Breakpoint,
    /// The instruction word does not decode to anything implemented
    IllegalInstruction(u32),
    /// Load from outside the implemented memory range
    LoadAccessFault(u64),
    /// Store to outside the implemented memory range (shares its cause number with AMO)
    StoreAmoAccessFault(u64),
    /// ECALL executed in machine mode (the only mode)
    EnvironmentCallFromMMode,
}

impl Exception {
    /// The mcause exception code of each variant (all synchronous: bit 63 clear).
    pub open spec fn cause_spec(self) -> u64 {
        match self {
            Exception::IllegalInstruction(_) => 2,
            Exception::Breakpoint => 3,
            Exception::LoadAccessFault(_) => 5,
            Exception::StoreAmoAccessFault(_) => 7,
            Exception::EnvironmentCallFromMMode => 11,
        }
    }

    /// The mtval payload: the faulting address / instruction word, or 0.
    pub open spec fn tval_spec(self) -> u64 {
        match self {
            Exception::IllegalInstruction(raw) => raw as u64,
            Exception::LoadAccessFault(addr) => addr,
            Exception::StoreAmoAccessFault(addr) => addr,
            Exception::Breakpoint | Exception::EnvironmentCallFromMMode => 0,
        }
    }

    /// The mcause exception code. Interrupts would set bit 63 on top; every
    /// variant here is a synchronous exception, so the bit stays clear.
    pub fn cause(&self) -> (c: u64)
        ensures
            c == self.cause_spec(),
    {
        match self {
            Exception::IllegalInstruction(_) => 2,
            Exception::Breakpoint => 3,
            Exception::LoadAccessFault(_) => 5,
            Exception::StoreAmoAccessFault(_) => 7,
            Exception::EnvironmentCallFromMMode => 11,
        }
    }

    /// The mtval payload: the faulting address / instruction, or 0 where the
    /// architecture has nothing useful to report. Breakpoint's mtval (the pc of the
    /// EBREAK) is filled in by the trap dispatcher, which knows the pc.
    pub fn tval(&self) -> (t: u64)
        ensures
            t == self.tval_spec(),
    {
        match self {
            Exception::IllegalInstruction(raw) => *raw as u64,
            Exception::LoadAccessFault(addr) => *addr,
            Exception::StoreAmoAccessFault(addr) => *addr,
            Exception::Breakpoint | Exception::EnvironmentCallFromMMode => 0,
        }
    }
}

} // verus!
