//! A virtual machine and the reasons for which it stops.
use vstd::prelude::*;
use crate::ept::{Ept, PageState};
use crate::page::PhysAddr;
use crate::regs::{GuestRegs, Register, FXSAVE_SIZE};

verus! {

/// Exceptions that a guest raises.
#[derive(Clone, Copy, PartialEq, Eq, Structural, Debug)]
pub enum Exception {
    DebugException,
    /// Any other exception, by its vector.
    Other(u8),
}

/// The reason for which a virtual machine stopped.
#[derive(Clone, Copy, PartialEq, Eq, Structural, Debug)]
pub enum VmExit {
    /// The guest accessed memory that is not mapped with the needed rights.
    EptViolation { addr: PhysAddr, write: bool },
    /// An interrupt for the host arrived.
    ExternalInterrupt,
    ReadMsr { inst_len: u64 },
    WriteMsr { inst_len: u64 },
    /// A general purpose register is moved to a control register.
    WriteCr { cr: u64, gpr: u64, inst_len: u64 },
    /// A control register is moved to a general purpose register.
    ReadCr { cr: u64, gpr: u64, inst_len: u64 },
    Exception(Exception),
    PreemptionTimer,
    /// The fuzz case ran for too long.
    Timeout,
    /// Any other reason, by its number.
    Other(u64),
}

/// A virtual machine.
pub struct Vm {
    pub guest_regs: GuestRegs,
    pub ept: Ept,
    /// For how long the guest runs before it is interrupted.
    pub preemption_timer: Option<u32>,
}

impl Vm {
    /// A machine whose registers are zero and to which no memory is mapped.
    pub fn new() -> (r: Self)
        ensures
            r.ept.wf(),
            r.ept@ == Map::<u64, PageState>::empty(),
            r.preemption_timer is None,
            forall|x: Register| #[trigger] r.guest_regs@[x] == 0,
            forall|i: int|
                0 <= i < FXSAVE_SIZE ==> #[trigger] r.guest_regs.fxsave.bytes@[i] == 0,
    {
        Vm { guest_regs: GuestRegs::new(), ept: Ept::new(), preemption_timer: None }
    }

    /// Reads a register.
    pub fn reg(&self, register: Register) -> (r: u64)
        ensures
            r == self.guest_regs@[register],
    {
        self.guest_regs.reg(register)
    }

    /// Writes a register.
    pub fn set_reg(&mut self, register: Register, value: u64)
        ensures
            final(self).guest_regs@ == old(self).guest_regs@.insert(register, value),
            final(self).guest_regs.fxsave == old(self).guest_regs.fxsave,
            final(self).ept == old(self).ept,
            final(self).preemption_timer == old(self).preemption_timer,
    {
        self.guest_regs.set_reg(register, value);
    }
}

} // verus!
