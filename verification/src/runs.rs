//! Whole fuzz cases, over all of their steps.
use vstd::prelude::*;
use crate::case::{
    awaits, law_statistics_add_up, new_case, CaseAction, CaseEvent, CasePhase, FuzzCase,
};
use crate::exits::law_msr_write_then_read;
use crate::page::{page_of, wrap};
use crate::regs::Register;
use crate::session::{input_bytes, with_input, FuzzSession};
use crate::vm::{Exception, VmExit};
use crate::worker::Worker;

verus! {

/// A step of a fuzz case: what it started from, and what it led to.
pub struct CaseStep<C, I, F> {
    pub worker: Worker<C>,
    pub after: Worker<C>,
    pub session: FuzzSession<C, I, F>,
    pub session_after: FuzzSession<C, I, F>,
    pub case: FuzzCase,
    pub case_after: FuzzCase,
    pub event: CaseEvent,
    pub action: CaseAction,
}

/// The sessions are set up alike.
pub open spec fn same_settings<C, I, F>(
    a: FuzzSession<C, I, F>,
    b: FuzzSession<C, I, F>,
) -> bool {
    &&& a.global_context == b.global_context
    &&& a.timeout == b.timeout
    &&& a.inject == b.inject
    &&& a.vmexit_filter == b.vmexit_filter
    &&& a.id == b.id
}

impl<C, I, F> CaseStep<C, I, F> {
    /// The step is what a step of a fuzz case does.
    #[verifier::opaque]
    pub open spec fn is_step(self) -> bool {
        &&& self.worker.session == Some(self.session.id)
        &&& awaits(self.case.phase, self.event)
        &&& self.worker.can_count(self.session, self.case, self.event)
        &&& self.event matches CaseEvent::Exited { exit, .. } ==> self.worker.expects(exit)
        &&& self.worker.case_stepped(
            self.after,
            self.session,
            self.session_after,
            self.case,
            self.case_after,
            self.event,
            self.action,
        )
    }

    /// `next` is the step after this one. In between, the guest and the callbacks
    /// may change the worker, but for what it descends from and what it has
    /// counted, and nothing else does. Other workers may report to the session.
    pub open spec fn leads_to(self, next: Self) -> bool {
        &&& next.case == self.case_after
        &&& next.worker.master == self.after.master
        &&& next.worker.network_mem == self.after.network_mem
        &&& next.worker.session == self.after.session
        &&& next.worker.stats == self.after.stats
        &&& next.worker.sync == self.after.sync
        &&& next.worker.worker_id == self.after.worker_id
        &&& self.action is Run || self.action is Inject || self.action is Filter || next.worker
            == self.after
        &&& same_settings(next.session, self.session_after)
    }

    /// The guest stopped with the exit.
    pub open spec fn reports(self, exit: VmExit) -> bool {
        match self.event {
            CaseEvent::Exited { exit: reported, .. } => reported == exit,
            _ => false,
        }
    }

    /// The guest was stopped to see which code it runs: it has executed a single
    /// instruction, or its time was up.
    pub open spec fn samples(self) -> bool {
        self.reports(VmExit::Exception(Exception::DebugException)) || self.reports(
            VmExit::PreemptionTimer,
        )
    }

    /// The guest stopped to show where it is, the place was new, and `input` is the
    /// input of the worker.
    pub open spec fn finds_by(self, input: Seq<u8>) -> bool {
        &&& self.samples()
        &&& !self.session.coverage@.contains(self.worker.place())
        &&& self.worker.fuzz_input matches Some(bytes) && bytes@ == input
    }

    /// How many runs of the guest the step has counted.
    pub open spec fn runs(self) -> int {
        if self.event is Exited {
            1
        } else {
            0
        }
    }

    /// How many cycles the guest ran for.
    pub open spec fn cycles(self) -> int {
        match self.event {
            CaseEvent::Exited { cycles, .. } => cycles as int,
            _ => 0,
        }
    }

    proof fn lemma_kept(&self)
        requires
            self.is_step(),
        ensures
            self.after.master == self.worker.master,
            self.after.network_mem == self.worker.network_mem,
            same_settings(self.session_after, self.session),
            self.case_after.phase !is New,
            self.case_after.phase is Resetting <==> self.event is Start,
    {
        reveal(CaseStep::is_step);
    }
}

/// The steps of a fuzz case, from its first one on.
pub open spec fn is_run<C, I, F>(steps: Seq<CaseStep<C, I, F>>) -> bool {
    &&& steps.len() > 0
    &&& steps[0].case == new_case()
    &&& forall|i: int| 0 <= i < steps.len() ==> (#[trigger] steps[i]).is_step()
    &&& forall|i: int| 0 < i < steps.len() ==> steps[i - 1].leads_to(#[trigger] steps[i])
}

/// No other worker reports to the session in between.
pub open spec fn is_alone<C, I, F>(steps: Seq<CaseStep<C, I, F>>) -> bool {
    forall|i: int|
        0 < i < steps.len() ==> (#[trigger] steps[i]).session == steps[i - 1].session_after
}

/// What holds up to the `n`th step.
pub(crate) proof fn lemma_run<C, I, F>(steps: Seq<CaseStep<C, I, F>>, n: int)
    requires
        is_run(steps),
        0 < n <= steps.len(),
    ensures
        steps[n - 1].worker.master == steps[0].worker.master,
        steps[n - 1].worker.network_mem == steps[0].worker.network_mem,
        same_settings(steps[n - 1].session, steps[0].session),
        steps[n - 1].event is Start <==> n == 1,
        steps[n - 1].event is Reset <==> n == 2,
    decreases n,
{
    reveal(CaseStep::is_step);
    assert(steps[n - 1].is_step());
    if n > 1 {
        lemma_run(steps, n - 1);
        steps[n - 2].lemma_kept();
        assert(steps[n - 2].leads_to(steps[n - 1]));
    }
}

/// Where there is an injection callback, it is asked for exactly once in a fuzz
/// case, before the guest runs, and with the registers and the memory of the
/// master, whatever was done to the worker before.
#[verifier::spinoff_prover]
#[verifier::rlimit(40)]
pub proof fn law_injected_once<C, I, F>(steps: Seq<CaseStep<C, I, F>>)
    requires
        is_run(steps),
        steps.len() > 1,
        steps[0].session.inject is Some,
    ensures
        steps[1].action is Inject,
        steps[1].after.vm.guest_regs == steps[0].worker.master->0.vm.guest_regs,
        forall|p: u64| #[trigger] steps[1].after.page(p) == steps[0].worker.master->0.page(p),
        forall|addr: u64| #[trigger]
            steps[1].after.mem(addr) == steps[0].worker.master->0.mem(addr),
        forall|i: int| 0 <= i < steps.len() ==> ((#[trigger] steps[i]).action is Inject <==> i == 1),
        forall|i: int| 0 <= i < steps.len() && (#[trigger] steps[i]).action is Run ==> i > 1,
{
    reveal(CaseStep::is_step);
    lemma_run(steps, 1);
    lemma_run(steps, 2);
    assert(steps[0].is_step());
    assert(steps[1].is_step());
    assert(steps[0].leads_to(steps[1]));
    let master = steps[0].worker.master->0;
    assert forall|p: u64| #[trigger] steps[1].after.page(p) == master.page(p) by {
        assert(steps[0].after.page(p) == master.page(p));
    }
    assert forall|addr: u64| #[trigger] steps[1].after.mem(addr) == master.mem(addr) by {
        assert(steps[1].after.page(page_of(addr)) == master.page(page_of(addr)));
    }
    assert forall|i: int| 0 <= i < steps.len() implies ((#[trigger] steps[i]).action is Inject <==> i
        == 1) && (steps[i].action is Run ==> i > 1) by {
        lemma_run(steps, i + 1);
        assert(steps[i].is_step());
    }
}

/// An exit that is handled neither by the library nor, where it is one of memory,
/// by mapping that memory.
pub open spec fn is_left<C>(worker: Worker<C>, exit: VmExit) -> bool {
    match exit {
        VmExit::EptViolation { addr, .. } => worker.original(page_of(addr.0)) is None,
        VmExit::ExternalInterrupt => false,
        VmExit::ReadMsr { .. } => false,
        VmExit::WriteMsr { .. } => false,
        VmExit::WriteCr { .. } => false,
        VmExit::ReadCr { .. } => false,
        VmExit::Exception(exception) => exception != Exception::DebugException,
        VmExit::PreemptionTimer => false,
        _ => true,
    }
}

/// One of the first `n` steps was told that the guest stopped with the exit.
pub open spec fn was_reported<C, I, F>(
    steps: Seq<CaseStep<C, I, F>>,
    n: int,
    exit: VmExit,
) -> bool {
    exists|i: int| 0 <= i < n && (#[trigger] steps[i]).reports(exit)
}

/// The exit that a case has in hand.
pub open spec fn exit_of(phase: CasePhase) -> Option<VmExit> {
    match phase {
        CasePhase::Filtering { exit } => Some(exit),
        CasePhase::Ending { exit } => Some(exit),
        CasePhase::Reporting { exit } => Some(exit),
        CasePhase::Syncing { exit } => Some(exit),
        _ => None,
    }
}

#[verifier::spinoff_prover]
#[verifier::rlimit(40)]
proof fn lemma_exit<C, I, F>(steps: Seq<CaseStep<C, I, F>>, n: int)
    requires
        is_run(steps),
        0 < n <= steps.len(),
    ensures
        exit_of(steps[n - 1].case_after.phase) matches Some(exit) ==> exit == VmExit::Timeout || (
        is_left(steps[0].worker, exit) && was_reported(steps, n, exit)),
        steps[n - 1].action matches CaseAction::Finish { exit } ==> exit == VmExit::Timeout || (
        is_left(steps[0].worker, exit) && was_reported(steps, n, exit)),
    decreases n,
{
    reveal(CaseStep::is_step);
    let s = steps[n - 1];
    assert(s.is_step());
    lemma_run(steps, n);
    if n > 1 {
        lemma_exit(steps, n - 1);
        assert(steps[n - 2].leads_to(s));
        let exit = exit_of(steps[n - 2].case_after.phase)->0;
        if was_reported(steps, n - 1, exit) {
            let i = choose|i: int| 0 <= i < n - 1 && (#[trigger] steps[i]).reports(exit);
            assert(steps[i].reports(exit));
            assert(was_reported(steps, n, exit));
        }
    }
    match s.event {
        CaseEvent::Exited { exit, .. } => {
            assert(steps[n - 1].reports(exit));
        },
        _ => {},
    }
}

/// A fuzz case finishes by its timeout, or with an exit that the guest stopped
/// with and that was not handled: no exit that is handled ends a case, and no
/// access to memory that can be mapped does.
pub proof fn law_finish_is_unhandled<C, I, F>(steps: Seq<CaseStep<C, I, F>>)
    requires
        is_run(steps),
        steps.last().action is Finish,
    ensures
        steps.last().action matches CaseAction::Finish { exit } && (exit == VmExit::Timeout || (
        is_left(steps[0].worker, exit) && was_reported(steps, steps.len() as int, exit))),
{
    reveal(CaseStep::is_step);
    lemma_exit(steps, steps.len() as int);
}

/// How often the guest ran in the first `n` steps.
pub open spec fn runs<C, I, F>(steps: Seq<CaseStep<C, I, F>>, n: int) -> int
    decreases n,
{
    if n <= 0 {
        0
    } else {
        runs(steps, n - 1) + steps[n - 1].runs()
    }
}

/// For how many cycles the guest ran in the first `n` steps.
pub open spec fn cycles<C, I, F>(steps: Seq<CaseStep<C, I, F>>, n: int) -> int
    decreases n,
{
    if n <= 0 {
        0
    } else {
        cycles(steps, n - 1) + steps[n - 1].cycles()
    }
}

/// The case has been counted.
pub open spec fn is_counted(phase: CasePhase) -> bool {
    phase is Reporting || phase is Syncing || phase is Over
}

#[verifier::spinoff_prover]
#[verifier::rlimit(40)]
proof fn lemma_totals<C, I, F>(steps: Seq<CaseStep<C, I, F>>, n: int)
    requires
        is_run(steps),
        is_alone(steps),
        0 < n <= steps.len(),
    ensures
        ({
            let before = (steps[0].worker.stats, steps[0].session.stats);
            let now = (steps[n - 1].after.stats, steps[n - 1].session_after.stats);
            &&& now.0.fuzz_cases + now.1.fuzz_cases == before.0.fuzz_cases + before.1.fuzz_cases + (
            if is_counted(steps[n - 1].case_after.phase) {
                1int
            } else {
                0
            })
            &&& now.0.vmexits + now.1.vmexits == before.0.vmexits + before.1.vmexits + runs(steps, n)
            &&& now.0.vm_cycles + now.1.vm_cycles == before.0.vm_cycles + before.1.vm_cycles
                + cycles(steps, n)
            &&& now.0.reset_cycles + now.1.reset_cycles >= before.0.reset_cycles
                + before.1.reset_cycles
            &&& now.0.total_cycles + now.1.total_cycles >= before.0.total_cycles
                + before.1.total_cycles
        }),
    decreases n,
{
    reveal(CaseStep::is_step);
    let s = steps[n - 1];
    assert(s.is_step());
    law_statistics_add_up(
        &s.worker,
        &s.after,
        &s.session,
        &s.session_after,
        s.case,
        s.case_after,
        s.event,
        s.action,
    );
    reveal_with_fuel(runs, 2);
    reveal_with_fuel(cycles, 2);
    if n > 1 {
        lemma_totals(steps, n - 1);
        assert(steps[n - 2].leads_to(s));
    }
}

/// Over a whole fuzz case, what the worker and its session have counted together
/// grows by one fuzz case, by the number of times that the guest ran, and by the
/// cycles that it ran for, whether or not the case synced.
pub proof fn law_case_totals<C, I, F>(steps: Seq<CaseStep<C, I, F>>)
    requires
        is_run(steps),
        is_alone(steps),
        steps.last().action is Finish,
    ensures
        ({
            let n = steps.len() as int;
            let before = (steps[0].worker.stats, steps[0].session.stats);
            let now = (steps.last().after.stats, steps.last().session_after.stats);
            &&& now.0.fuzz_cases + now.1.fuzz_cases == before.0.fuzz_cases + before.1.fuzz_cases + 1
            &&& now.0.vmexits + now.1.vmexits == before.0.vmexits + before.1.vmexits + runs(steps, n)
            &&& now.0.vm_cycles + now.1.vm_cycles == before.0.vm_cycles + before.1.vm_cycles
                + cycles(steps, n)
            &&& now.0.reset_cycles + now.1.reset_cycles >= before.0.reset_cycles
                + before.1.reset_cycles
            &&& now.0.total_cycles + now.1.total_cycles >= before.0.total_cycles
                + before.1.total_cycles
        }),
{
    reveal(CaseStep::is_step);
    lemma_totals(steps, steps.len() as int);
    assert(steps.last().is_step());
}

/// One of the first `n` steps found new coverage by `input`.
pub open spec fn was_found_by<C, I, F>(
    steps: Seq<CaseStep<C, I, F>>,
    n: int,
    input: Seq<u8>,
) -> bool {
    exists|i: int| 0 <= i < n && (#[trigger] steps[i]).finds_by(input)
}

/// What a step does to the inputs: it adds at most the input that found new
/// coverage.
proof fn lemma_input_step<C, I, F>(s: CaseStep<C, I, F>)
    requires
        s.is_step(),
    ensures
        input_bytes(s.session_after.inputs@) == input_bytes(s.session.inputs@) || (exists|
            input: Seq<u8>,
        |
            {
                &&& #[trigger] s.finds_by(input)
                &&& !input_bytes(s.session.inputs@).contains(input)
                &&& input_bytes(s.session_after.inputs@) == input_bytes(s.session.inputs@).push(
                    input,
                )
            }),
{
    reveal(CaseStep::is_step);
    if input_bytes(s.session_after.inputs@) != input_bytes(s.session.inputs@) {
        let input = s.worker.fuzz_input->0@;
        assert(s.event is Exited);
        assert(input_bytes(s.session_after.inputs@) == with_input(
            input_bytes(s.session.inputs@),
            input,
        ));
        assert(s.finds_by(input));
    }
}

#[verifier::spinoff_prover]
#[verifier::rlimit(40)]
proof fn lemma_inputs<C, I, F>(steps: Seq<CaseStep<C, I, F>>, n: int)
    requires
        is_run(steps),
        is_alone(steps),
        0 < n <= steps.len(),
        input_bytes(steps[0].session.inputs@).no_duplicates(),
    ensures
        ({
            let before = input_bytes(steps[0].session.inputs@);
            let now = input_bytes(steps[n - 1].session_after.inputs@);
            &&& now.no_duplicates()
            &&& before.is_prefix_of(now)
            &&& forall|k: int|
                before.len() <= k < now.len() ==> was_found_by(steps, n, #[trigger] now[k])
        }),
    decreases n,
{
    reveal(CaseStep::is_step);
    let s = steps[n - 1];
    let first = input_bytes(steps[0].session.inputs@);
    let before = input_bytes(s.session.inputs@);
    let now = input_bytes(s.session_after.inputs@);
    assert(s.is_step());
    if n > 1 {
        lemma_inputs(steps, n - 1);
        assert(s.session == steps[n - 2].session_after);
    }
    lemma_input_step(s);
    assert(before.is_prefix_of(now));
    assert(first.is_prefix_of(now));
    if now != before {
        assert(now.no_duplicates()) by {
            assert forall|i: int, j: int|
                0 <= i < now.len() && 0 <= j < now.len() && i != j implies now[i] != now[j] by {
                if i < before.len() {
                    assert(before.contains(before[i]));
                }
                if j < before.len() {
                    assert(before.contains(before[j]));
                }
            }
        }
    }
    assert forall|k: int| first.len() <= k < now.len() implies was_found_by(
        steps,
        n,
        #[trigger] now[k],
    ) by {
        if k < before.len() {
            assert(n > 1);
            assert(before[k] == now[k]);
            let i = choose|i: int| 0 <= i < n - 1 && (#[trigger] steps[i]).finds_by(before[k]);
            assert(steps[i].finds_by(now[k]));
        } else {
            assert(steps[n - 1].finds_by(now[k]));
        }
    }
}

/// Over a whole fuzz case, the inputs of the session stay distinct and in order,
/// and each one that is added is the input of the worker at a time at which the
/// guest was at a place that was new.
pub proof fn law_case_inputs<C, I, F>(steps: Seq<CaseStep<C, I, F>>)
    requires
        is_run(steps),
        is_alone(steps),
        input_bytes(steps[0].session.inputs@).no_duplicates(),
    ensures
        ({
            let before = input_bytes(steps[0].session.inputs@);
            let now = input_bytes(steps.last().session_after.inputs@);
            &&& now.no_duplicates()
            &&& before.is_prefix_of(now)
            &&& forall|k: int|
                before.len() <= k < now.len() ==> was_found_by(
                    steps,
                    steps.len() as int,
                    #[trigger] now[k],
                )
        }),
{
    reveal(CaseStep::is_step);
    lemma_inputs(steps, steps.len() as int);
}

/// In a fuzz case, a guest that writes the base of GS for the kernel and then
/// reads it, with nothing but the halves lost in between, gets back what it wrote.
/// Neither exit ends the case, and neither reaches the exit filter.
#[verifier::spinoff_prover]
#[verifier::rlimit(40)]
pub proof fn law_msr_in_a_case<C, I, F>(
    write: CaseStep<C, I, F>,
    enter: CaseStep<C, I, F>,
    read: CaseStep<C, I, F>,
    write_len: u64,
    read_len: u64,
)
    requires
        write.is_step(),
        enter.is_step(),
        read.is_step(),
        write.leads_to(enter),
        enter.leads_to(read),
        write.reports(VmExit::WriteMsr { inst_len: write_len }),
        read.reports(VmExit::ReadMsr { inst_len: read_len }),
        write.worker.vm.guest_regs@[Register::Rax] < 0x1_0000_0000,
        write.worker.vm.guest_regs@[Register::Rdx] < 0x1_0000_0000,
        forall|r: Register|
            r != Register::Rax && r != Register::Rdx ==> #[trigger] read.worker.vm.guest_regs@[r]
                == enter.after.vm.guest_regs@[r],
    ensures
        write.action is ReadClock,
        enter.action is Run,
        read.action is ReadClock,
        ({
            let before = write.worker.vm.guest_regs@;
            let after = read.after.vm.guest_regs@;
            &&& write.after.vm.guest_regs@[Register::KernelGsBase] == (before[Register::Rdx] << 32)
                | before[Register::Rax]
            &&& after[Register::KernelGsBase] == (before[Register::Rdx] << 32)
                | before[Register::Rax]
            &&& after[Register::Rax] == before[Register::Rax]
            &&& after[Register::Rdx] == before[Register::Rdx]
            &&& after[Register::Rip] == wrap(before[Register::Rip], write_len + read_len)
        }),
{
    reveal(CaseStep::is_step);
    let before = write.worker.vm.guest_regs@;
    let between = read.worker.vm.guest_regs@;
    assert(enter.event is Clock);
    assert(between[Register::KernelGsBase] == enter.after.vm.guest_regs@[Register::KernelGsBase]);
    assert(between[Register::Rip] == enter.after.vm.guest_regs@[Register::Rip]);
    law_msr_write_then_read(before, between, write_len, read_len);
}

} // verus!
