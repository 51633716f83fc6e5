//! What fuzz cases do to the guest, and what they leave alone.
use vstd::prelude::*;
use crate::case::{law_statistics_add_up, CaseAction, CaseEvent, CasePhase};
use crate::case_laws::lemma_one_end;
use crate::ept::page_state_wf;
use crate::exits::gpr_register;
use crate::page::{page_of, wrap, PhysAddr};
use crate::regs::Register;
use crate::rng::xorshift;
use crate::runs::{is_alone, is_run, lemma_run, CaseStep};
use crate::session::ServerMessage;
use crate::vm::VmExit;
use crate::worker::Worker;

verus! {

/// The general purpose registers in the order in which instructions number them.
pub open spec fn hardware_order() -> Seq<Register> {
    seq![
        Register::Rax,
        Register::Rcx,
        Register::Rdx,
        Register::Rbx,
        Register::Rsp,
        Register::Rbp,
        Register::Rsi,
        Register::Rdi,
        Register::R8,
        Register::R9,
        Register::R10,
        Register::R11,
        Register::R12,
        Register::R13,
        Register::R14,
        Register::R15,
    ]
}

/// The flags trap after an instruction.
pub open spec fn traps(rflags: u64) -> bool {
    (rflags / 0x100) % 2 == 1
}

/// The flags but for the one that traps.
pub open spec fn other_flags(rflags: u64) -> int {
    if traps(rflags) {
        rflags - 0x100
    } else {
        rflags as int
    }
}

impl<C, I, F> CaseStep<C, I, F> {
    /// The guest was sampled at a place that was not known.
    pub open spec fn finds(self) -> bool {
        self.samples() && !self.session.coverage@.contains(self.worker.place())
    }

    /// How many single steps are to follow changes with new places and with entries
    /// into the guest only.
    proof fn lemma_single_step(&self)
        requires
            self.is_step(),
        ensures
            self.finds() ==> self.case_after.single_step == 1000 && self.action !is Run,
            self.action is Run ==> self.case_after.single_step == if self.case.single_step > 0 {
                self.case.single_step - 1
            } else {
                0
            },
            !self.finds() && self.action !is Run && self.event !is Start ==> self.case_after.single_step
                == self.case.single_step,
            self.event is Start ==> self.case_after.single_step == 0,
    {
        reveal(CaseStep::is_step);
    }

    proof fn lemma_flags(&self)
        requires
            self.is_step(),
            self.action is Run,
        ensures
            ({
                let before = self.worker.vm.guest_regs@[Register::Rflags];
                let after = self.after.vm.guest_regs@[Register::Rflags];
                &&& traps(after) <==> self.case.single_step > 0
                &&& other_flags(after) == other_flags(before)
            }),
    {
        reveal(CaseStep::is_step);
        let f = self.worker.vm.guest_regs@[Register::Rflags];
        let set = f | (1u64 << 8);
        let clear = f & !(1u64 << 8);
        assert((set / 0x100) % 2 == 1 && set - 0x100 == if (f / 0x100) % 2 == 1 {
            f - 0x100
        } else {
            f as int
        }) by (bit_vector)
            requires
                set == f | (1u64 << 8),
        ;
        assert((clear / 0x100) % 2 == 0 && clear == if (f / 0x100) % 2 == 1 {
            f - 0x100
        } else {
            f as int
        }) by (bit_vector)
            requires
                clear == f & !(1u64 << 8),
        ;
    }
}

/// How often the guest was entered behind the step number `j` and before the step
/// number `i`.
pub open spec fn entries<C, I, F>(steps: Seq<CaseStep<C, I, F>>, j: int, i: int) -> int
    decreases i - j,
{
    if i <= j + 1 {
        0
    } else if steps[i - 1].action is Run {
        entries(steps, j, i - 1) + 1
    } else {
        entries(steps, j, i - 1)
    }
}

/// No step from `from` on and before `to` found a new place.
pub open spec fn finds_nothing<C, I, F>(
    steps: Seq<CaseStep<C, I, F>>,
    from: int,
    to: int,
) -> bool {
    forall|k: int| from <= k < to ==> !(#[trigger] steps[k]).finds()
}

#[verifier::spinoff_prover]
#[verifier::rlimit(40)]
proof fn lemma_due<C, I, F>(steps: Seq<CaseStep<C, I, F>>, j: int, i: int)
    requires
        is_run(steps),
        0 <= j < i < steps.len(),
        steps[j].finds(),
        finds_nothing(steps, j + 1, i),
    ensures
        entries(steps, j, i) >= 0,
        steps[i].case.single_step == if entries(steps, j, i) < 1000 {
            1000 - entries(steps, j, i)
        } else {
            0
        },
    decreases i,
{
    reveal(CaseStep::is_step);
    let prev = steps[i - 1];
    prev.lemma_single_step();
    assert(prev.leads_to(steps[i]));
    if j < i - 1 {
        lemma_due(steps, j, i - 1);
        assert(!steps[i - 1].finds());
        lemma_not_first(steps, i - 1);
    }
}

proof fn lemma_not_first<C, I, F>(steps: Seq<CaseStep<C, I, F>>, i: int)
    requires
        is_run(steps),
        0 <= i < steps.len(),
    ensures
        steps[i].event is Start <==> i == 0,
{
    reveal(CaseStep::is_step);
    assert(steps[i].is_step());
    if i > 0 {
        assert(steps[i - 1].leads_to(steps[i]));
        assert(steps[i - 1].is_step());
    }
}

proof fn lemma_not_due<C, I, F>(steps: Seq<CaseStep<C, I, F>>, i: int)
    requires
        is_run(steps),
        0 <= i < steps.len(),
        finds_nothing(steps, 0, i),
    ensures
        steps[i].case.single_step == 0,
    decreases i,
{
    if i > 0 {
        lemma_not_due(steps, i - 1);
        assert(!steps[i - 1].finds());
        steps[i - 1].lemma_single_step();
        assert(steps[i - 1].leads_to(steps[i]));
    }
}

/// After a new place was found, the next thousand entries into the guest are made
/// with the trap flag, and the ones behind without it, as are those of a case that
/// has found nothing.
pub proof fn law_trap_flag<C, I, F>(steps: Seq<CaseStep<C, I, F>>, i: int)
    requires
        is_run(steps),
        0 <= i < steps.len(),
        steps[i].action is Run,
    ensures
        forall|j: int|
            0 <= j < i && (#[trigger] steps[j]).finds() && finds_nothing(steps, j + 1, i) ==> (traps(
                steps[i].after.vm.guest_regs@[Register::Rflags],
            ) <==> entries(steps, j, i) < 1000),
        finds_nothing(steps, 0, i) ==> !traps(steps[i].after.vm.guest_regs@[Register::Rflags]),
{
    assert(steps[i].is_step());
    steps[i].lemma_flags();
    assert forall|j: int|
        0 <= j < i && (#[trigger] steps[j]).finds() && finds_nothing(steps, j + 1, i) implies (traps(
        steps[i].after.vm.guest_regs@[Register::Rflags],
    ) <==> entries(steps, j, i) < 1000) by {
        lemma_due(steps, j, i);
    }
    if finds_nothing(steps, 0, i) {
        lemma_not_due(steps, i);
    }
}

/// To enter the guest changes the trap flag, the time after which it is interrupted,
/// which is random and below 4096, and the random number generator, and leaves all
/// other flags, registers and memory alone.
pub proof fn law_entry<C, I, F>(s: CaseStep<C, I, F>)
    requires
        s.is_step(),
        s.action is Run,
    ensures
        other_flags(s.after.vm.guest_regs@[Register::Rflags]) == other_flags(
            s.worker.vm.guest_regs@[Register::Rflags],
        ),
        forall|r: Register|
            r != Register::Rflags ==> #[trigger] s.after.vm.guest_regs@[r]
                == s.worker.vm.guest_regs@[r],
        s.after.vm.guest_regs.fxsave == s.worker.vm.guest_regs.fxsave,
        s.after.vm.preemption_timer == Some((s.worker.rng.seed % 4096) as u32),
        s.after.rng.seed == xorshift(s.worker.rng.seed),
        s.after.vm.ept == s.worker.vm.ept,
        s.session_after == s.session,
{
    reveal(CaseStep::is_step);
    s.lemma_flags();
    let seed = s.worker.rng.seed;
    assert((seed as usize) & 0xfff == seed % 4096) by (bit_vector);
}

/// The start of a case, and nothing else in it, loads the registers and the memory
/// of the master.
pub proof fn law_start<C, I, F>(s: CaseStep<C, I, F>, addr: u64)
    requires
        s.is_step(),
    ensures
        s.event is Start ==> {
            &&& s.after.vm.guest_regs == s.worker.master->0.vm.guest_regs
            &&& s.after.mem(addr) == s.worker.master->0.mem(addr)
            &&& forall|p: u64| #[trigger]
                s.after.vm.ept@.contains_key(p) <==> s.worker.vm.ept@.contains_key(p)
            &&& forall|p: u64| #[trigger]
                s.after.vm.ept@.contains_key(p) ==> !s.after.vm.ept@[p].dirty
                    && s.after.vm.ept@[p].flags == s.worker.vm.ept@[p].flags
            &&& s.action is ResetVm
            &&& s.session_after == s.session
        },
        s.event !is Start ==> s.after.mem(addr) == s.worker.mem(addr),
        s.action is ResetVm ==> s.event is Start,
{
    reveal(CaseStep::is_step);
    if s.event is Start {
        assert(s.after.page(page_of(addr)) == s.worker.master->0.page(page_of(addr)));
    } else if s.event is Exited {
        s.lemma_pages(page_of(addr));
    }
}

impl<C, I, F> CaseStep<C, I, F> {
    proof fn lemma_pages(&self, p: u64)
        requires
            self.is_step(),
            self.event is Exited,
        ensures
            self.after.page(p) == self.worker.page(p),
    {
        reveal(CaseStep::is_step);
        let counted = Worker { stats: self.after.stats, ..self.worker };
        assert(counted.page(p) == self.worker.page(p));
    }
}

/// A step touches what it is about and nothing else: what the worker descends from
/// and belongs to, its input and its modules stay, the registers stay but at the
/// start, for an entry and for an instruction that is emulated, the statistics stay
/// but where something is counted, and the time of the next sync but where it is
/// set.
pub proof fn law_step_leaves_alone<C, I, F>(s: CaseStep<C, I, F>)
    requires
        s.is_step(),
    ensures
        s.after.master == s.worker.master,
        s.after.network_mem == s.worker.network_mem,
        s.after.session == s.worker.session,
        s.after.global_context == s.worker.global_context,
        s.after.fuzz_input == s.worker.fuzz_input,
        s.after.worker_id == s.worker.worker_id,
        s.after.module_list == s.worker.module_list,
        s.action !is Run ==> s.after.rng == s.worker.rng && s.after.vm.preemption_timer
            == s.worker.vm.preemption_timer,
        s.event !is NextSync ==> s.after.sync == s.worker.sync,
        s.event !is Reset && s.event !is Exited && s.event !is Ended ==> s.after.stats
            == s.worker.stats,
        s.event !is Start && s.event !is Exited && s.action !is Run ==> s.after.vm == s.worker.vm,
        s.event matches CaseEvent::Exited { exit, .. } ==> (exit is EptViolation || exit is ReadMsr
            || exit is WriteMsr || exit is ReadCr || exit is WriteCr || s.after.vm == s.worker.vm),
        s.event !is Ended ==> s.session_after.stats == s.session.stats,
        s.session_after.master_vm == s.session.master_vm,
        s.session_after.workers == s.session.workers,
        s.session_after.id == s.session.id,
{
    reveal(CaseStep::is_step);
}

/// At the end of a case, the worker moves what it has counted to the session if the
/// time of the next sync has come, and keeps it otherwise. The first worker then
/// reports what the session has counted. The next sync comes a tenth of a second
/// later, at the time that was computed.
pub proof fn law_sync<C, I, F>(s: CaseStep<C, I, F>, now: u64, sync_now: u64)
    requires
        s.is_step(),
    ensures
        s.event == (CaseEvent::Ended { now, sync_now }) ==> if sync_now < s.worker.sync {
            &&& s.action is Finish
            &&& s.session_after == s.session
            &&& s.after.stats.fuzz_cases == s.worker.stats.fuzz_cases + 1
            &&& s.after.stats.vmexits == s.worker.stats.vmexits
        } else {
            &&& s.after.stats.fuzz_cases == 0
            &&& s.after.stats.reset_cycles == 0
            &&& s.after.stats.total_cycles == 0
            &&& s.after.stats.vm_cycles == 0
            &&& s.after.stats.vmexits == 0
            &&& s.action == if s.worker.worker_id == 0 {
                CaseAction::Report {
                    message: ServerMessage::ReportStatistics {
                        fuzz_cases: s.session_after.stats.fuzz_cases,
                        total_cycles: s.session_after.stats.total_cycles,
                        vm_cycles: s.session_after.stats.vm_cycles,
                        reset_cycles: s.session_after.stats.reset_cycles,
                    },
                }
            } else {
                CaseAction::ComputeSync { interval: 100_000 }
            }
        },
        s.event is Reported ==> s.action == (CaseAction::ComputeSync { interval: 100_000 }),
        s.event == (CaseEvent::NextSync { at: now }) ==> s.after.sync == now && s.action is Finish,
        s.action is Report ==> s.event is Ended && s.worker.worker_id == 0,
        s.action is ComputeSync ==> s.event is Ended || s.event is Reported,
{
    reveal(CaseStep::is_step);
}

/// The guest's access to memory that is there maps the page: for a write as a copy
/// that can be written and is dirty, holding what was there, and for a read so that
/// it can be read. No byte changes, and no other page. Where there is no memory, no
/// page is mapped.
#[verifier::spinoff_prover]
#[verifier::rlimit(40)]
pub proof fn law_violation<C, I, F>(s: CaseStep<C, I, F>, addr: PhysAddr, write: bool)
    requires
        s.is_step(),
        s.worker.wf(),
        s.reports(VmExit::EptViolation { addr, write }),
    ensures
        ({
            let page = (addr.0 - addr.0 % 4096) as u64;
            let before = s.worker.vm.ept.at(page);
            &&& s.worker.mem(addr.0) is Some ==> {
                &&& s.action is ReadClock
                &&& s.after.vm.ept.at(page) matches Some(state) && {
                    &&& write ==> state.flags.write && state.dirty && state.copy == s.worker.page(page)
                    &&& !write && before is None ==> state.flags.read && state.flags.execute
                        && !state.flags.write && !state.dirty && state.copy is None
                    &&& !write && before is Some ==> Some(state) == before
                }
            }
            &&& s.worker.mem(addr.0) is None ==> s.after.vm.ept@ == s.worker.vm.ept@
            &&& forall|p: u64|
                p != page ==> #[trigger] s.after.vm.ept.at(p) == s.worker.vm.ept.at(p)
            &&& s.after.vm.guest_regs == s.worker.vm.guest_regs
        }),
{
    reveal(CaseStep::is_step);
    let page = page_of(addr.0);
    s.worker.lemma_page_present(page);
    if s.worker.vm.ept@.contains_key(page) {
        assert(s.worker.mapping_wf(page));
        assert(page_state_wf(s.worker.vm.ept@[page]));
    }
    let counted = Worker { stats: s.after.stats, ..s.worker };
    assert(counted.original(page) == s.worker.original(page));
}

/// A move to a control register puts the general purpose register that the
/// instruction names into the control register, a move from one does the reverse,
/// and both go behind the instruction and change nothing else.
#[verifier::spinoff_prover]
#[verifier::rlimit(40)]
pub proof fn law_control_registers<C, I, F>(
    s: CaseStep<C, I, F>,
    cr: u64,
    control: Register,
    gpr: u64,
    inst_len: u64,
)
    requires
        s.is_step(),
        gpr < 16,
        cr == 0 && control == Register::Cr0 || cr == 3 && control == Register::Cr3 || cr == 4
            && control == Register::Cr4,
    ensures
        ({
            let before = s.worker.vm.guest_regs@;
            let after = s.after.vm.guest_regs@;
            let general = hardware_order()[gpr as int];
            &&& s.reports(VmExit::WriteCr { cr, gpr, inst_len }) ==> {
                &&& after[control] == before[general]
                &&& after[Register::Rip] == wrap(before[Register::Rip], inst_len as int)
                &&& forall|r: Register|
                    r != control && r != Register::Rip ==> #[trigger] after[r] == before[r]
                &&& s.action is ReadClock
            }
            &&& s.reports(VmExit::ReadCr { cr, gpr, inst_len }) ==> {
                &&& after[general] == before[control]
                &&& after[Register::Rip] == wrap(before[Register::Rip], inst_len as int)
                &&& forall|r: Register|
                    r != general && r != Register::Rip ==> #[trigger] after[r] == before[r]
                &&& s.action is ReadClock
            }
        }),
{
    reveal(CaseStep::is_step);
    assert(gpr_register(gpr) == Some(hardware_order()[gpr as int]));
}

/// A read of the base of GS for the kernel splits it into halves, a write puts it
/// together from them, bit by bit, and both go behind the instruction.
#[verifier::spinoff_prover]
#[verifier::rlimit(40)]
pub proof fn law_kernel_gs_base<C, I, F>(s: CaseStep<C, I, F>, inst_len: u64, bit: u64)
    requires
        s.is_step(),
        bit < 64,
    ensures
        ({
            let before = s.worker.vm.guest_regs@;
            let after = s.after.vm.guest_regs@;
            &&& s.reports(VmExit::ReadMsr { inst_len }) ==> {
                &&& after[Register::Rax] + 0x1_0000_0000 * after[Register::Rdx]
                    == before[Register::KernelGsBase]
                &&& after[Register::Rax] < 0x1_0000_0000
                &&& after[Register::Rip] == wrap(before[Register::Rip], inst_len as int)
                &&& forall|r: Register|
                    r != Register::Rax && r != Register::Rdx && r != Register::Rip
                        ==> #[trigger] after[r] == before[r]
            }
            &&& s.reports(VmExit::WriteMsr { inst_len }) ==> {
                &&& (after[Register::KernelGsBase] >> bit) & 1 == if bit < 32 {
                    (before[Register::Rax] >> bit) & 1
                } else {
                    ((before[Register::Rax] >> bit) | (before[Register::Rdx] >> ((bit - 32) as u64)))
                        & 1
                }
                &&& after[Register::Rip] == wrap(before[Register::Rip], inst_len as int)
                &&& forall|r: Register|
                    r != Register::KernelGsBase && r != Register::Rip ==> #[trigger] after[r]
                        == before[r]
            }
        }),
{
    reveal(CaseStep::is_step);
    let low = s.worker.vm.guest_regs@[Register::Rax];
    let high = s.worker.vm.guest_regs@[Register::Rdx];
    let value = (high << 32) | low;
    if bit < 32 {
        assert((value >> bit) & 1 == (low >> bit) & 1) by (bit_vector)
            requires
                bit < 32,
                value == (high << 32) | low,
        ;
    } else {
        let up = (bit - 32) as u64;
        assert((value >> bit) & 1 == ((low >> bit) | (high >> up)) & 1) by (bit_vector)
            requires
                32 <= bit < 64,
                up == bit - 32,
                value == (high << 32) | low,
        ;
    }
}

/// The totals of a worker and its session for the time that resets took and the
/// time that the case took grow by exactly what the clock told: from the start of
/// the reset to its end, and from the start of the case to its end.
pub proof fn law_case_times<C, I, F>(
    steps: Seq<CaseStep<C, I, F>>,
    i: int,
    fuzz_start: u64,
    reset_start: u64,
    reset_end: u64,
    now: u64,
    sync_now: u64,
)
    requires
        is_run(steps),
        is_alone(steps),
        1 < i < steps.len(),
        steps[0].event == (CaseEvent::Start { fuzz_start, reset_start }),
        steps[1].event == (CaseEvent::Reset { now: reset_end }),
        steps[i].event == (CaseEvent::Ended { now, sync_now }),
    ensures
        ({
            let before = (steps[0].worker.stats, steps[0].session.stats);
            let end = (steps.last().after.stats, steps.last().session_after.stats);
            &&& end.0.reset_cycles + end.1.reset_cycles == before.0.reset_cycles
                + before.1.reset_cycles + (reset_end - reset_start)
            &&& end.0.total_cycles + end.1.total_cycles == before.0.total_cycles
                + before.1.total_cycles + (now - fuzz_start)
        }),
{
    lemma_times(steps, i, steps.len() as int);
}

#[verifier::spinoff_prover]
#[verifier::rlimit(40)]
proof fn lemma_times<C, I, F>(steps: Seq<CaseStep<C, I, F>>, i: int, n: int)
    requires
        is_run(steps),
        is_alone(steps),
        1 < i < steps.len(),
        steps[0].event is Start,
        steps[1].event is Reset,
        steps[i].event is Ended,
        0 < n <= steps.len(),
    ensures
        ({
            let before = (steps[0].worker.stats, steps[0].session.stats);
            let end = (steps[n - 1].after.stats, steps[n - 1].session_after.stats);
            &&& end.0.reset_cycles + end.1.reset_cycles == before.0.reset_cycles
                + before.1.reset_cycles + (if n > 1 {
                steps[1].event->Reset_now - steps[0].event->reset_start
            } else {
                0
            })
            &&& end.0.total_cycles + end.1.total_cycles == before.0.total_cycles
                + before.1.total_cycles + (if n > i {
                steps[i].event->Ended_now - steps[0].event->fuzz_start
            } else {
                0
            })
            &&& steps[n - 1].case_after.fuzz_start == steps[0].event->fuzz_start
            &&& n == 1 ==> steps[0].case_after.phase == (CasePhase::Resetting {
                since: steps[0].event->reset_start,
            })
        }),
    decreases n,
{
    reveal(CaseStep::is_step);
    let s = steps[n - 1];
    assert(s.is_step());
    law_statistics_add_up(
        &s.worker,
        &s.after,
        &s.session,
        &s.session_after,
        s.case,
        s.case_after,
        s.event,
        s.action,
    );
    if n > 1 {
        lemma_times(steps, i, n - 1);
        assert(steps[n - 2].leads_to(s));
        assert(s.session == steps[n - 2].session_after);
        lemma_once(steps, i, n - 1);
        s.lemma_start_kept();
    }
}

impl<C, I, F> CaseStep<C, I, F> {
    proof fn lemma_start_kept(&self)
        requires
            self.is_step(),
        ensures
            self.event !is Start ==> self.case_after.fuzz_start == self.case.fuzz_start,
    {
        reveal(CaseStep::is_step);
    }
}

/// A case is reset once, and ends once.
proof fn lemma_once<C, I, F>(steps: Seq<CaseStep<C, I, F>>, i: int, k: int)
    requires
        is_run(steps),
        1 < i < steps.len(),
        steps[i].event is Ended,
        0 <= k < steps.len(),
    ensures
        steps[k].event is Ended <==> k == i,
        steps[k].event is Reset <==> k == 1,
        steps[k].event is Start <==> k == 0,
{
    lemma_run(steps, k + 1);
    if steps[k].event is Ended && k != i {
        if k < i {
            lemma_one_end(steps, k, i);
        } else {
            lemma_one_end(steps, i, k);
        }
    }
}

} // verus!
