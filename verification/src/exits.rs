//! How a worker handles the exits of its virtual machine.
use vstd::prelude::*;
use crate::coverage::CoverageRecord;
use crate::ept::touched;
use crate::modules::{law_resolve_inside, law_resolve_outside, modules_of, resolved};
use crate::page::{lemma_wrap_wrap, page_addr, page_of, wrap};
use crate::regs::Register;
use crate::session::{input_bytes, pending_places, with_input, FuzzSession};
use crate::vm::{Exception, VmExit};
use crate::worker::Worker;

verus! {

/// The model specific register that holds the base of GS for the kernel.
pub const MSR_KERNEL_GS_BASE: u64 = 0xc000_0102;

/// How many instructions are executed one by one after new coverage was found.
pub const SINGLE_STEPS: u32 = 1000;

/// The general purpose register that an instruction encodes as `gpr`.
pub open spec fn gpr_register(gpr: u64) -> Option<Register> {
    if gpr == 0 {
        Some(Register::Rax)
    } else if gpr == 1 {
        Some(Register::Rcx)
    } else if gpr == 2 {
        Some(Register::Rdx)
    } else if gpr == 3 {
        Some(Register::Rbx)
    } else if gpr == 4 {
        Some(Register::Rsp)
    } else if gpr == 5 {
        Some(Register::Rbp)
    } else if gpr == 6 {
        Some(Register::Rsi)
    } else if gpr == 7 {
        Some(Register::Rdi)
    } else if gpr == 8 {
        Some(Register::R8)
    } else if gpr == 9 {
        Some(Register::R9)
    } else if gpr == 10 {
        Some(Register::R10)
    } else if gpr == 11 {
        Some(Register::R11)
    } else if gpr == 12 {
        Some(Register::R12)
    } else if gpr == 13 {
        Some(Register::R13)
    } else if gpr == 14 {
        Some(Register::R14)
    } else if gpr == 15 {
        Some(Register::R15)
    } else {
        None
    }
}

/// The control register number `cr`.
pub open spec fn cr_register(cr: u64) -> Option<Register> {
    if cr == 0 {
        Some(Register::Cr0)
    } else if cr == 3 {
        Some(Register::Cr3)
    } else if cr == 4 {
        Some(Register::Cr4)
    } else {
        None
    }
}

/// The exit names registers that are emulated.
pub open spec fn emulates(regs: Map<Register, u64>, exit: VmExit) -> bool {
    match exit {
        VmExit::ReadMsr { .. } => regs[Register::Rcx] == MSR_KERNEL_GS_BASE,
        VmExit::WriteMsr { .. } => regs[Register::Rcx] == MSR_KERNEL_GS_BASE,
        VmExit::WriteCr { cr, gpr, .. } => cr_register(cr) is Some && gpr_register(gpr) is Some,
        VmExit::ReadCr { cr, gpr, .. } => cr_register(cr) is Some && gpr_register(gpr) is Some,
        _ => true,
    }
}

/// `regs` behind an instruction.
pub open spec fn skip_instruction(regs: Map<Register, u64>, inst_len: u64) -> Map<Register, u64> {
    regs.insert(Register::Rip, wrap(regs[Register::Rip], inst_len as int))
}

/// The registers after the instruction that caused an exit was emulated.
pub open spec fn emulated(regs: Map<Register, u64>, exit: VmExit) -> Map<Register, u64> {
    match exit {
        VmExit::ReadMsr { inst_len } => {
            let value = regs[Register::KernelGsBase];
            skip_instruction(
                regs.insert(Register::Rax, value % 0x1_0000_0000).insert(
                    Register::Rdx,
                    value / 0x1_0000_0000,
                ),
                inst_len,
            )
        },
        VmExit::WriteMsr { inst_len } => skip_instruction(
            regs.insert(
                Register::KernelGsBase,
                (regs[Register::Rdx] << 32) | regs[Register::Rax],
            ),
            inst_len,
        ),
        VmExit::WriteCr { cr, gpr, inst_len } => skip_instruction(
            regs.insert(cr_register(cr)->0, regs[gpr_register(gpr)->0]),
            inst_len,
        ),
        VmExit::ReadCr { cr, gpr, inst_len } => skip_instruction(
            regs.insert(gpr_register(gpr)->0, regs[cr_register(cr)->0]),
            inst_len,
        ),
        _ => regs,
    }
}

/// The exit interrupts the guest to see which code it runs.
pub open spec fn samples_coverage(exit: VmExit) -> bool {
    exit == VmExit::Exception(Exception::DebugException) || exit == VmExit::PreemptionTimer
}

/// The register that is encoded as `gpr`.
fn find_gpr(gpr: u64) -> (r: Option<Register>)
    ensures
        r == gpr_register(gpr),
{
    match gpr {
        0 => Some(Register::Rax),
        1 => Some(Register::Rcx),
        2 => Some(Register::Rdx),
        3 => Some(Register::Rbx),
        4 => Some(Register::Rsp),
        5 => Some(Register::Rbp),
        6 => Some(Register::Rsi),
        7 => Some(Register::Rdi),
        8 => Some(Register::R8),
        9 => Some(Register::R9),
        10 => Some(Register::R10),
        11 => Some(Register::R11),
        12 => Some(Register::R12),
        13 => Some(Register::R13),
        14 => Some(Register::R14),
        15 => Some(Register::R15),
        _ => None,
    }
}

/// The control register number `cr`.
fn find_cr(cr: u64) -> (r: Option<Register>)
    ensures
        r == cr_register(cr),
{
    match cr {
        0 => Some(Register::Cr0),
        3 => Some(Register::Cr3),
        4 => Some(Register::Cr4),
        _ => None,
    }
}

impl<C> Worker<C> {
    /// Nothing but the values of registers differs.
    pub open spec fn same_but_regs(self, other: Self) -> bool {
        &&& self.master == other.master
        &&& self.network_mem == other.network_mem
        &&& self.session == other.session
        &&& self.global_context == other.global_context
        &&& self.vm.guest_regs.fxsave == other.vm.guest_regs.fxsave
        &&& self.vm.ept == other.vm.ept
        &&& self.vm.preemption_timer == other.vm.preemption_timer
        &&& self.rng == other.rng
        &&& self.fuzz_input == other.fuzz_input
        &&& self.stats == other.stats
        &&& self.sync == other.sync
        &&& self.worker_id == other.worker_id
        &&& self.module_list == other.module_list
    }

    /// The exit is one that can be handled or left to others: it names registers
    /// that are emulated, and memory that is well placed in the snapshot.
    pub open spec fn expects(self, exit: VmExit) -> bool {
        &&& emulates(self.vm.guest_regs@, exit)
        &&& exit matches VmExit::EptViolation { addr, .. } ==> self.is_aligned(page_of(addr.0))
    }

    /// Whether the exit is one that can be handled or left to others.
    pub fn is_expected(&self, exit: VmExit) -> (r: bool)
        requires
            self.wf(),
        ensures
            r == self.expects(exit),
    {
        match exit {
            VmExit::EptViolation { addr, .. } => self.page_aligned(page_addr(addr.0)),
            VmExit::ReadMsr { .. } => self.vm.reg(Register::Rcx) == MSR_KERNEL_GS_BASE,
            VmExit::WriteMsr { .. } => self.vm.reg(Register::Rcx) == MSR_KERNEL_GS_BASE,
            VmExit::WriteCr { cr, gpr, .. } => find_cr(cr).is_some() && find_gpr(gpr).is_some(),
            VmExit::ReadCr { cr, gpr, .. } => find_cr(cr).is_some() && find_gpr(gpr).is_some(),
            _ => true,
        }
    }

    /// Moves the program counter behind an instruction.
    fn advance(&mut self, inst_len: u64)
        ensures
            final(self).same_but_regs(*old(self)),
            final(self).vm.guest_regs@ == skip_instruction(old(self).vm.guest_regs@, inst_len),
    {
        let rip: u64 = self.vm.reg(Register::Rip);
        self.vm.set_reg(Register::Rip, rip.wrapping_add(inst_len));
    }

    /// Emulates the instruction that caused an exit. Says whether the exit was
    /// caused by one that is emulated.
    pub fn emulate(&mut self, exit: VmExit) -> (r: bool)
        requires
            emulates(old(self).vm.guest_regs@, exit),
        ensures
            final(self).same_but_regs(*old(self)),
            final(self).vm.guest_regs@ == emulated(old(self).vm.guest_regs@, exit),
            r == (exit is ReadMsr || exit is WriteMsr || exit is WriteCr || exit is ReadCr),
            !r ==> *final(self) == *old(self),
    {
        match exit {
            VmExit::ReadMsr { inst_len } => {
                let value: u64 = self.vm.reg(Register::KernelGsBase);
                assert(value & 0xffff_ffff == value % 0x1_0000_0000) by (bit_vector);
                assert(value >> 32 == value / 0x1_0000_0000) by (bit_vector);
                self.vm.set_reg(Register::Rax, value & 0xffff_ffff);
                self.vm.set_reg(Register::Rdx, value >> 32);
                self.advance(inst_len);
                true
            },
            VmExit::WriteMsr { inst_len } => {
                let value: u64 = (self.vm.reg(Register::Rdx) << 32) | self.vm.reg(Register::Rax);
                self.vm.set_reg(Register::KernelGsBase, value);
                self.advance(inst_len);
                true
            },
            VmExit::WriteCr { cr, gpr, inst_len } => {
                match (find_cr(cr), find_gpr(gpr)) {
                    (Some(to), Some(from)) => {
                        let value: u64 = self.vm.reg(from);
                        self.vm.set_reg(to, value);
                    },
                    _ => {},
                }
                self.advance(inst_len);
                true
            },
            VmExit::ReadCr { cr, gpr, inst_len } => {
                match (find_cr(cr), find_gpr(gpr)) {
                    (Some(from), Some(to)) => {
                        let value: u64 = self.vm.reg(from);
                        self.vm.set_reg(to, value);
                    },
                    _ => {},
                }
                self.advance(inst_len);
                true
            },
            _ => false,
        }
    }

    /// Reports the code that the guest is about to run. If it is new, the input
    /// of the fuzz case is kept. Says whether it is new.
    pub fn sample_coverage<I, F>(&self, session: &mut FuzzSession<C, I, F>) -> (r: bool)
        requires
            self.module_list.wf(),
            old(session).wf(),
        ensures
            final(session).wf(),
            final(session).same_but_reports(*old(session)),
            final(session).stats == old(session).stats,
            self.sampled(*old(session), *final(session)),
            r == !old(session).coverage@.contains(self.place()),
    {
        let (name, offset) = self.resolve_module(self.vm.reg(Register::Rip));
        let record = CoverageRecord {
            module: match name {
                Some(name) => Some(name.clone()),
                None => None,
            },
            offset,
        };
        assert(record@ == self.place());
        let new: bool = session.report_coverage(&record);
        if new {
            match &self.fuzz_input {
                Some(input) => {
                    session.keep_input(input);
                },
                None => {},
            }
        }
        new
    }

    /// The place in the guest that is executed next.
    pub open spec fn place(self) -> (Option<Seq<char>>, u64) {
        resolved(modules_of(self.module_list), self.vm.guest_regs@[Register::Rip])
    }

    /// What `before` knows of coverage and inputs is, with the place that is
    /// executed next, what `after` knows.
    pub open spec fn sampled<I, F>(
        self,
        before: FuzzSession<C, I, F>,
        after: FuzzSession<C, I, F>,
    ) -> bool {
        let new = !before.coverage@.contains(self.place());
        &&& after.coverage@ == before.coverage@.insert(self.place())
        &&& pending_places(after.pending_coverage@) == if new {
            pending_places(before.pending_coverage@).push(self.place())
        } else {
            pending_places(before.pending_coverage@)
        }
        &&& input_bytes(after.inputs@) == if new && self.fuzz_input is Some {
            with_input(input_bytes(before.inputs@), self.fuzz_input->0@)
        } else {
            input_bytes(before.inputs@)
        }
    }

    /// What handling an exit does. `single_step` is how many instructions are to
    /// be executed one by one, and `handled` says that the guest can go on.
    pub open spec fn exit_handled<I, F>(
        self,
        after: Self,
        session: FuzzSession<C, I, F>,
        session_after: FuzzSession<C, I, F>,
        single_step: u32,
        single_step_after: u32,
        exit: VmExit,
        handled: bool,
    ) -> bool {
        if samples_coverage(exit) {
            &&& handled
            &&& after == self
            &&& self.sampled(session, session_after)
            &&& single_step_after == if session.coverage@.contains(self.place()) {
                single_step
            } else {
                SINGLE_STEPS
            }
        } else {
            &&& session_after == session
            &&& single_step_after == single_step
            &&& match exit {
                VmExit::EptViolation { addr, write } => {
                    let page = page_of(addr.0);
                    &&& handled == (self.original(page) is Some)
                    &&& after.same_but_ept(self)
                    &&& forall|p: u64| #[trigger] after.page(p) == self.page(p)
                    &&& after.vm.ept@ == if handled {
                        self.vm.ept@.insert(
                            page,
                            touched(self.vm.ept.at(page), self.original(page)->0, write),
                        )
                    } else {
                        self.vm.ept@
                    }
                },
                VmExit::ExternalInterrupt => handled && after == self,
                VmExit::ReadMsr { .. } | VmExit::WriteMsr { .. } | VmExit::WriteCr { .. }
                | VmExit::ReadCr { .. } => {
                    &&& handled
                    &&& after.same_but_regs(self)
                    &&& after.vm.guest_regs@ == emulated(self.vm.guest_regs@, exit)
                },
                _ => !handled && after == self,
            }
        }
    }

    /// Handles an exit, if it can be. Says whether the guest can go on.
    pub fn handle_exit<I, F>(
        &mut self,
        session: &mut FuzzSession<C, I, F>,
        single_step: &mut u32,
        exit: VmExit,
    ) -> (r: bool)
        requires
            old(self).wf(),
            old(session).wf(),
            old(self).expects(exit),
        ensures
            final(self).wf(),
            final(session).wf(),
            final(session).same_but_reports(*old(session)),
            final(session).stats == old(session).stats,
            old(self).exit_handled(
                *final(self),
                *old(session),
                *final(session),
                *old(single_step),
                *final(single_step),
                exit,
                r,
            ),
    {
        match exit {
            VmExit::EptViolation { addr, write } => self.translate(addr, write).is_some(),
            VmExit::ExternalInterrupt => {
                // Host interrupt happened, ignore it
                true
            },
            VmExit::Exception(Exception::DebugException) | VmExit::PreemptionTimer => {
                if self.sample_coverage(session) {
                    *single_step = SINGLE_STEPS;
                }
                true
            },
            _ => self.emulate(exit),
        }
    }
}

/// What a guest reads of a model specific register and writes back leaves the
/// register as it is.
pub proof fn law_msr_round_trip(regs: Map<Register, u64>, read_len: u64, write_len: u64)
    requires
        forall|r: Register| regs.contains_key(r),
    ensures
        ({
            let read = emulated(regs, VmExit::ReadMsr { inst_len: read_len });
            let written = emulated(read, VmExit::WriteMsr { inst_len: write_len });
            &&& written[Register::KernelGsBase] == regs[Register::KernelGsBase]
            &&& written[Register::Rip] == wrap(regs[Register::Rip], read_len + write_len)
        }),
{
    let value = regs[Register::KernelGsBase];
    assert(((value / 0x1_0000_0000) << 32) | (value % 0x1_0000_0000) == value) by (bit_vector);
    lemma_wrap_wrap(regs[Register::Rip], read_len as int, write_len as int);
}

/// What a guest writes to a model specific register is what it then reads from
/// it, whatever it does to the registers that hold the halves in between.
pub proof fn law_msr_write_then_read(
    regs: Map<Register, u64>,
    between: Map<Register, u64>,
    write_len: u64,
    read_len: u64,
)
    requires
        regs.contains_key(Register::KernelGsBase),
        forall|r: Register| between.contains_key(r),
        regs[Register::Rax] < 0x1_0000_0000,
        regs[Register::Rdx] < 0x1_0000_0000,
        between[Register::KernelGsBase] == emulated(
            regs,
            VmExit::WriteMsr { inst_len: write_len },
        )[Register::KernelGsBase],
        between[Register::Rip] == emulated(
            regs,
            VmExit::WriteMsr { inst_len: write_len },
        )[Register::Rip],
    ensures
        ({
            let read = emulated(between, VmExit::ReadMsr { inst_len: read_len });
            &&& read[Register::Rax] == regs[Register::Rax]
            &&& read[Register::Rdx] == regs[Register::Rdx]
            &&& read[Register::KernelGsBase] == (regs[Register::Rdx] << 32) | regs[Register::Rax]
            &&& read[Register::Rip] == wrap(regs[Register::Rip], write_len + read_len)
        }),
{
    let low = regs[Register::Rax];
    let high = regs[Register::Rdx];
    assert(((high << 32) | low) % 0x1_0000_0000 == low && ((high << 32) | low) / 0x1_0000_0000
        == high) by (bit_vector)
        requires
            low < 0x1_0000_0000,
            high < 0x1_0000_0000,
    ;
    lemma_wrap_wrap(regs[Register::Rip], write_len as int, read_len as int);
}

/// What a guest moves to a control register is what it then reads from it.
pub proof fn law_cr_round_trip(
    regs: Map<Register, u64>,
    cr: u64,
    from: u64,
    to: u64,
    write_len: u64,
    read_len: u64,
)
    requires
        forall|r: Register| regs.contains_key(r),
        cr_register(cr) is Some,
        gpr_register(from) is Some,
        gpr_register(to) is Some,
    ensures
        ({
            let written = emulated(regs, VmExit::WriteCr { cr, gpr: from, inst_len: write_len });
            let read = emulated(written, VmExit::ReadCr { cr, gpr: to, inst_len: read_len });
            &&& read[gpr_register(to)->0] == regs[gpr_register(from)->0]
            &&& read[cr_register(cr)->0] == regs[gpr_register(from)->0]
            &&& read[Register::Rip] == wrap(regs[Register::Rip], write_len + read_len)
        }),
{
    lemma_wrap_wrap(regs[Register::Rip], write_len as int, read_len as int);
}

/// An instruction that is emulated changes the program counter and the register
/// that it writes, and no other.
pub proof fn law_emulation_is_local(regs: Map<Register, u64>, exit: VmExit, other: Register)
    requires
        forall|r: Register| regs.contains_key(r),
        emulates(regs, exit),
        other != Register::Rip,
        exit is ReadMsr ==> other != Register::Rax && other != Register::Rdx,
        exit is WriteMsr ==> other != Register::KernelGsBase,
        exit matches VmExit::WriteCr { cr, .. } ==> Some(other) != cr_register(cr),
        exit matches VmExit::ReadCr { gpr, .. } ==> Some(other) != gpr_register(gpr),
    ensures
        emulated(regs, exit)[other] == regs[other],
{
}

/// The place of a guest that is about to execute code of a module is the name of the
/// module and how far the code lies behind its base.
pub proof fn law_place_in_module<C>(worker: &Worker<C>, base: u64)
    requires
        worker.module_list@.contains_key(base),
        base <= worker.vm.guest_regs@[Register::Rip] <= worker.module_list@[base].end,
        forall|b: u64| #[trigger]
            worker.module_list@.contains_key(b) && b <= worker.vm.guest_regs@[Register::Rip] ==> b
                <= base,
    ensures
        worker.place() == (
            Some(worker.module_list@[base].name@),
            (worker.vm.guest_regs@[Register::Rip] - base) as u64,
        ),
{
    let modules = modules_of(worker.module_list);
    assert forall|b: u64| #[trigger] modules.contains_key(b) && b
        <= worker.vm.guest_regs@[Register::Rip] implies b <= base by {
        assert(worker.module_list@.contains_key(b));
    }
    law_resolve_inside(modules, base, worker.vm.guest_regs@[Register::Rip]);
}

/// The place of a guest that is about to execute code outside of the modules is the
/// address itself.
pub proof fn law_place_outside<C>(worker: &Worker<C>)
    requires
        forall|b: u64| #[trigger]
            worker.module_list@.contains_key(b) ==> worker.vm.guest_regs@[Register::Rip] < b
                || worker.vm.guest_regs@[Register::Rip] > worker.module_list@[b].end,
    ensures
        worker.place() == (None::<Seq<char>>, worker.vm.guest_regs@[Register::Rip]),
{
    let modules = modules_of(worker.module_list);
    assert forall|b: u64| #[trigger] modules.contains_key(b) implies worker.vm.guest_regs@[Register::Rip]
        < b || worker.vm.guest_regs@[Register::Rip] > modules[b].end by {
        assert(worker.module_list@.contains_key(b));
    }
    law_resolve_outside(modules, worker.vm.guest_regs@[Register::Rip]);
}

/// A read or a write of a model specific register is expected if it is the base of GS
/// for the kernel, a move to or from a control register if it is number 0, 3 or 4 and
/// there is such a general purpose register, an access to memory if its page is well
/// placed, and anything else always.
pub proof fn law_expected<C>(worker: &Worker<C>, exit: VmExit)
    ensures
        worker.expects(exit) <==> match exit {
            VmExit::ReadMsr { .. } => worker.vm.guest_regs@[Register::Rcx] == 0xc000_0102,
            VmExit::WriteMsr { .. } => worker.vm.guest_regs@[Register::Rcx] == 0xc000_0102,
            VmExit::WriteCr { cr, gpr, .. } => (cr == 0 || cr == 3 || cr == 4) && gpr < 16,
            VmExit::ReadCr { cr, gpr, .. } => (cr == 0 || cr == 3 || cr == 4) && gpr < 16,
            VmExit::EptViolation { addr, .. } => worker.is_aligned(
                (addr.0 - addr.0 % 4096) as u64,
            ),
            _ => true,
        },
{
}

} // verus!
