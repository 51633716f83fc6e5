//! Fuzz cases.
//!
//! A fuzz case alternates between decisions and work on the machine: resetting
//! and running the virtual machine, reading the clock, and calling back the
//! user. Each step takes what the machine did last and says what it has to do
//! next.
use vstd::prelude::*;
use vstd::pervasive::unreached;
use crate::access::has_bit;
use crate::page::page_of;
use crate::regs::Register;
use crate::rng::xorshift;
use crate::session::{
    input_bytes, law_input_is_kept_once, statistics_message, FuzzSession, ServerMessage,
};
use crate::stats::{no_statistics, Statistics};
use crate::vm::{Vm, VmExit};
use crate::worker::Worker;

verus! {

/// Number of microseconds to wait before syncing worker statistics into the
/// session.
///
/// This is used to reduce the frequency which workers sync with the session,
/// to cut down on the lock contention.
pub const STATISTIC_SYNC_INTERVAL: u64 = 100_000;

/// What a fuzz case waits for.
#[derive(Clone, Copy, PartialEq, Eq, Structural, Debug)]
pub enum CasePhase {
    /// The case has not started.
    New,
    /// The VM is being reset, since the given time.
    Resetting { since: u64 },
    /// The injection callback runs.
    Injecting,
    /// The deadline is being computed.
    Timing,
    /// The clock is being read.
    Checking,
    /// The VM runs.
    Running,
    /// The exit filter looks at an exit.
    Filtering { exit: VmExit },
    /// The clock is being read, after the case has ended with an exit.
    Ending { exit: VmExit },
    /// The statistics are being reported.
    Reporting { exit: VmExit },
    /// The time of the next sync is being computed.
    Syncing { exit: VmExit },
    /// The case is over.
    Over,
}

/// A fuzz case.
#[derive(Clone, Copy, PartialEq, Eq, Structural, Debug)]
pub struct FuzzCase {
    pub phase: CasePhase,
    /// The time at which the case started.
    pub fuzz_start: u64,
    /// How many instructions are to be executed one by one.
    pub single_step: u32,
    /// The time from which on the case has run for too long.
    pub deadline: Option<u64>,
}

/// What the machine did for a fuzz case.
#[derive(Clone, Copy, PartialEq, Eq, Structural, Debug)]
pub enum CaseEvent {
    /// The clock was read, and was read again to time the reset.
    Start { fuzz_start: u64, reset_start: u64 },
    /// The VM was reset, which ended at the given time.
    Reset { now: u64 },
    /// The injection callback has run.
    Injected,
    /// The deadline was computed.
    Deadline { at: u64 },
    /// The clock was read.
    Clock { now: u64 },
    /// The VM ran for a number of cycles and stopped.
    Exited { exit: VmExit, cycles: u64 },
    /// The exit filter has looked at the exit.
    Filtered { handled: bool },
    /// The clock was read, and was read again to see if a sync is due.
    Ended { now: u64, sync_now: u64 },
    /// The statistics were reported.
    Reported,
    /// The time of the next sync was computed.
    NextSync { at: u64 },
}

/// What the machine has to do for a fuzz case.
#[derive(Clone, Copy, PartialEq, Eq, Structural, Debug)]
pub enum CaseAction {
    /// Reset the state of the VM that is not kept in its registers and memory.
    ResetVm,
    /// Run the injection callback.
    Inject,
    /// Compute the time that lies a number of microseconds ahead.
    ComputeDeadline { timeout: u64 },
    /// Read the clock.
    ReadClock,
    /// Run the VM until it stops.
    Run,
    /// Run the exit filter on an exit.
    Filter { exit: VmExit },
    /// Read the clock twice.
    ReadEndClock,
    /// Send a message to the server.
    Report { message: ServerMessage },
    /// Compute the time that lies a number of microseconds ahead.
    ComputeSync { interval: u64 },
    /// The case has ended with an exit.
    Finish { exit: VmExit },
}

/// A fuzz case that is about to start.
pub open spec fn new_case() -> FuzzCase {
    FuzzCase { phase: CasePhase::New, fuzz_start: 0, single_step: 0, deadline: None }
}

/// The event is what a case in the given phase waits for.
pub open spec fn awaits(phase: CasePhase, event: CaseEvent) -> bool {
    match event {
        CaseEvent::Start { .. } => phase is New,
        CaseEvent::Reset { now } => phase matches CasePhase::Resetting { since } && since <= now,
        CaseEvent::Injected => phase is Injecting,
        CaseEvent::Deadline { .. } => phase is Timing,
        CaseEvent::Clock { .. } => phase is Checking,
        CaseEvent::Exited { .. } => phase is Running,
        CaseEvent::Filtered { .. } => phase is Filtering,
        CaseEvent::Ended { .. } => phase is Ending,
        CaseEvent::Reported => phase is Reporting,
        CaseEvent::NextSync { .. } => phase is Syncing,
    }
}

/// The flags with which the guest is entered: the trap flag is set to execute a
/// single instruction, and clear otherwise.
pub open spec fn entry_flags(rflags: u64, single_step: u32) -> u64 {
    if single_step > 0 {
        rflags | (1u64 << 8)
    } else {
        rflags & !(1u64 << 8)
    }
}

/// How many single steps are left once the guest is entered.
pub open spec fn steps_left(single_step: u32) -> u32 {
    if single_step > 0 {
        (single_step - 1) as u32
    } else {
        0
    }
}

/// The deadline has come.
pub open spec fn is_late(deadline: Option<u64>, now: u64) -> bool {
    match deadline {
        Some(at) => now >= at,
        None => now == u64::MAX,
    }
}

/// The statistics of a worker once a fuzz case has ended.
pub open spec fn counted_case(stats: Statistics, fuzz_start: u64, now: u64) -> Statistics {
    Statistics {
        fuzz_cases: (stats.fuzz_cases + 1) as u64,
        total_cycles: (stats.total_cycles + (now - fuzz_start)) as u64,
        ..stats
    }
}

/// The statistics of a worker once its VM has run.
pub open spec fn counted_run(stats: Statistics, cycles: u64) -> Statistics {
    Statistics {
        vmexits: (stats.vmexits + 1) as u64,
        vm_cycles: (stats.vm_cycles + cycles) as u64,
        ..stats
    }
}

/// The case goes on in a phase, for which the machine has to do an action.
pub open spec fn goes_on(
    case: FuzzCase,
    after: FuzzCase,
    phase: CasePhase,
    action: CaseAction,
    result: CaseAction,
) -> bool {
    &&& after == FuzzCase { phase, ..case }
    &&& result == action
}

/// The case goes on once the guest's memory is prepared.
pub open spec fn goes_on_prepared<C, I, F>(
    session: FuzzSession<C, I, F>,
    case: FuzzCase,
    after: FuzzCase,
    result: CaseAction,
) -> bool {
    match session.timeout {
        Some(timeout) => goes_on(
            case,
            after,
            CasePhase::Timing,
            CaseAction::ComputeDeadline { timeout },
            result,
        ),
        None => goes_on(case, after, CasePhase::Checking, CaseAction::ReadClock, result),
    }
}

impl FuzzCase {
    /// A fuzz case that is about to start.
    pub fn new() -> (r: Self)
        ensures
            r == new_case(),
    {
        FuzzCase { phase: CasePhase::New, fuzz_start: 0, single_step: 0, deadline: None }
    }

    /// The exit with which the case ends.
    pub open spec fn ends_with(self) -> Option<VmExit> {
        match self.phase {
            CasePhase::Ending { exit } => Some(exit),
            CasePhase::Reporting { exit } => Some(exit),
            CasePhase::Syncing { exit } => Some(exit),
            _ => None,
        }
    }

    /// The exit with which the case ends.
    fn exit(&self) -> (r: VmExit)
        requires
            self.ends_with() is Some,
        ensures
            Some(r) == self.ends_with(),
    {
        match self.phase {
            CasePhase::Ending { exit } => exit,
            CasePhase::Reporting { exit } => exit,
            CasePhase::Syncing { exit } => exit,
            _ => unreached(),
        }
    }

    fn go_on(&mut self, phase: CasePhase, action: CaseAction) -> (r: CaseAction)
        ensures
            goes_on(*old(self), *final(self), phase, action, r),
    {
        self.phase = phase;
        action
    }

    fn go_on_prepared<C, I, F>(&mut self, session: &FuzzSession<C, I, F>) -> (r: CaseAction)
        ensures
            goes_on_prepared(*session, *old(self), *final(self), r),
    {
        match session.timeout {
            Some(timeout) => self.go_on(
                CasePhase::Timing,
                CaseAction::ComputeDeadline { timeout },
            ),
            None => self.go_on(CasePhase::Checking, CaseAction::ReadClock),
        }
    }
}

impl<C> Worker<C> {
    /// `self` is the worker `before` with the registers and the memory of its
    /// master.
    pub open spec fn restarted(self, before: Self) -> bool {
        &&& self.vm.guest_regs == before.master->0.vm.guest_regs
        &&& forall|p: u64| #[trigger] self.page(p) == before.master->0.page(p)
        &&& self.vm.ept@ == Map::new(
            |p: u64| before.vm.ept@.contains_key(p),
            |p: u64| Self::restored(before.vm.ept@[p], before.original(p)->0),
        )
        &&& self.same_but_ept(
            Worker { vm: Vm { guest_regs: self.vm.guest_regs, ..before.vm }, ..before },
        )
    }

    /// Loads the original snapshot registers, and resets memory to its original
    /// state.
    pub fn restart(&mut self)
        requires
            old(self).wf(),
            old(self).master is Some,
        ensures
            final(self).wf(),
            final(self).restarted(*old(self)),
    {
        match &self.master {
            Some(master) => {
                self.vm.guest_regs = master.vm.guest_regs;
            },
            None => {},
        }
        proof {
            assert forall|p: u64| #[trigger] self.vm.ept@.contains_key(p) implies self.mapping_wf(
                p,
            ) by {
                assert(old(self).vm.ept@.contains_key(p));
                assert(old(self).mapping_wf(p));
            }
        }
        self.restore_memory();
        proof {
            assert(self.vm.ept@ =~= Map::new(
                |p: u64| old(self).vm.ept@.contains_key(p),
                |p: u64| Self::restored(old(self).vm.ept@[p], old(self).original(p)->0),
            ));
        }
    }

    /// The counters of the worker and the session have room for what the event
    /// counts, and time does not run backwards.
    pub open spec fn can_count<I, F>(
        self,
        session: FuzzSession<C, I, F>,
        case: FuzzCase,
        event: CaseEvent,
    ) -> bool {
        match event {
            CaseEvent::Reset { now } => case.phase matches CasePhase::Resetting { since }
                ==> self.stats.reset_cycles + (now - since) <= u64::MAX,
            CaseEvent::Exited { cycles, .. } => self.stats.vmexits < u64::MAX
                && self.stats.vm_cycles + cycles <= u64::MAX,
            CaseEvent::Ended { now, sync_now } => {
                &&& case.fuzz_start <= now
                &&& self.stats.fuzz_cases < u64::MAX
                &&& self.stats.total_cycles + (now - case.fuzz_start) <= u64::MAX
                &&& sync_now >= self.sync ==> session.stats.can_take(
                    counted_case(self.stats, case.fuzz_start, now),
                )
            },
            _ => true,
        }
    }

    /// What a step of a fuzz case does to the worker, the session and the case.
    pub open spec fn case_stepped<I, F>(
        self,
        after: Self,
        session: FuzzSession<C, I, F>,
        session_after: FuzzSession<C, I, F>,
        case: FuzzCase,
        case_after: FuzzCase,
        event: CaseEvent,
        action: CaseAction,
    ) -> bool {
        match event {
            CaseEvent::Start { fuzz_start, reset_start } => {
                &&& after.restarted(self)
                &&& session_after == session
                &&& goes_on(
                    FuzzCase { fuzz_start, ..new_case() },
                    case_after,
                    CasePhase::Resetting { since: reset_start },
                    CaseAction::ResetVm,
                    action,
                )
            },
            CaseEvent::Reset { now } => {
                let since = case.phase->Resetting_since;
                let cycles = (self.stats.reset_cycles + (now - since)) as u64;
                &&& after == Worker {
                    stats: Statistics { reset_cycles: cycles, ..self.stats },
                    ..self
                }
                &&& session_after == session
                &&& if session.inject is Some {
                    goes_on(case, case_after, CasePhase::Injecting, CaseAction::Inject, action)
                } else {
                    goes_on_prepared(session, case, case_after, action)
                }
            },
            CaseEvent::Injected => {
                &&& after == self
                &&& session_after == session
                &&& goes_on_prepared(session, case, case_after, action)
            },
            CaseEvent::Deadline { at } => {
                &&& after == self
                &&& session_after == session
                &&& goes_on(
                    FuzzCase { deadline: Some(at), ..case },
                    case_after,
                    CasePhase::Checking,
                    CaseAction::ReadClock,
                    action,
                )
            },
            CaseEvent::Clock { now } => {
                &&& session_after == session
                &&& if is_late(case.deadline, now) {
                    &&& after == self
                    &&& goes_on(
                        case,
                        case_after,
                        CasePhase::Ending { exit: VmExit::Timeout },
                        CaseAction::ReadEndClock,
                        action,
                    )
                } else {
                    &&& self.entered(after, case.single_step)
                    &&& goes_on(
                        FuzzCase { single_step: steps_left(case.single_step), ..case },
                        case_after,
                        CasePhase::Running,
                        CaseAction::Run,
                        action,
                    )
                }
            },
            CaseEvent::Exited { exit, cycles } => {
                let counted = Worker { stats: counted_run(self.stats, cycles), ..self };
                let handled = action is ReadClock;
                &&& counted.exit_handled(
                    after,
                    session,
                    session_after,
                    case.single_step,
                    case_after.single_step,
                    exit,
                    handled,
                )
                &&& after.stats == counted.stats
                &&& session_after.same_but_reports(session)
                &&& session_after.stats == session.stats
                &&& ({
                    let stepped = FuzzCase { single_step: case_after.single_step, ..case };
                    if handled {
                        goes_on(
                            stepped,
                            case_after,
                            CasePhase::Checking,
                            CaseAction::ReadClock,
                            action,
                        )
                    } else if session.vmexit_filter is Some {
                        goes_on(
                            stepped,
                            case_after,
                            CasePhase::Filtering { exit },
                            CaseAction::Filter { exit },
                            action,
                        )
                    } else {
                        goes_on(
                            stepped,
                            case_after,
                            CasePhase::Ending { exit },
                            CaseAction::ReadEndClock,
                            action,
                        )
                    }
                })
            },
            CaseEvent::Filtered { handled } => {
                &&& after == self
                &&& session_after == session
                &&& if handled {
                    goes_on(case, case_after, CasePhase::Checking, CaseAction::ReadClock, action)
                } else {
                    goes_on(
                        case,
                        case_after,
                        CasePhase::Ending { exit: case.phase->Filtering_exit },
                        CaseAction::ReadEndClock,
                        action,
                    )
                }
            },
            CaseEvent::Ended { now, sync_now } => {
                let exit = case.phase->Ending_exit;
                let stats = counted_case(self.stats, case.fuzz_start, now);
                if sync_now >= self.sync {
                    &&& after == Worker { stats: no_statistics(), ..self }
                    &&& session_after == FuzzSession { stats: session.stats.plus(stats), ..session }
                    &&& if self.worker_id == 0 {
                        goes_on(
                            case,
                            case_after,
                            CasePhase::Reporting { exit },
                            CaseAction::Report { message: statistics_message(session_after.stats) },
                            action,
                        )
                    } else {
                        goes_on(
                            case,
                            case_after,
                            CasePhase::Syncing { exit },
                            CaseAction::ComputeSync { interval: STATISTIC_SYNC_INTERVAL },
                            action,
                        )
                    }
                } else {
                    &&& after == Worker { stats, ..self }
                    &&& session_after == session
                    &&& goes_on(
                        case,
                        case_after,
                        CasePhase::Over,
                        CaseAction::Finish { exit },
                        action,
                    )
                }
            },
            CaseEvent::Reported => {
                &&& after == self
                &&& session_after == session
                &&& goes_on(
                    case,
                    case_after,
                    CasePhase::Syncing { exit: case.phase->Reporting_exit },
                    CaseAction::ComputeSync { interval: STATISTIC_SYNC_INTERVAL },
                    action,
                )
            },
            CaseEvent::NextSync { at } => {
                &&& after == Worker { sync: at, ..self }
                &&& session_after == session
                &&& goes_on(
                    case,
                    case_after,
                    CasePhase::Over,
                    CaseAction::Finish { exit: case.phase->Syncing_exit },
                    action,
                )
            },
        }
    }

    /// `after` is `self` as the guest is entered: for a single step or not, and
    /// with a random time after which it is interrupted.
    pub open spec fn entered(self, after: Self, single_step: u32) -> bool {
        &&& after.vm.guest_regs@ == self.vm.guest_regs@.insert(
            Register::Rflags,
            entry_flags(self.vm.guest_regs@[Register::Rflags], single_step),
        )
        &&& after.vm.preemption_timer == Some(((self.rng.seed as usize) & 0xfff) as u32)
        &&& after.rng.seed == xorshift(self.rng.seed)
        &&& after.same_but_regs(
            Worker {
                vm: Vm { preemption_timer: after.vm.preemption_timer, ..self.vm },
                rng: after.rng,
                ..self
            },
        )
    }

    /// Prepares the worker for the guest to be entered.
    fn enter(&mut self, single_step: u32)
        requires
            old(self).wf(),
        ensures
            final(self).wf(),
            old(self).entered(*final(self), single_step),
    {
        let rflags: u64 = self.vm.reg(Register::Rflags);
        if single_step > 0 {
            // Enable single stepping
            self.vm.set_reg(Register::Rflags, rflags | (1u64 << 8));
        } else {
            // Disable single stepping
            self.vm.set_reg(Register::Rflags, rflags & !(1u64 << 8));
        }
        // Set the pre-emption timer for randomly breaking into the VM to record
        // coverage information
        let ticks: usize = self.rng.rand() & 0xfff;
        assert(ticks & 0xfff <= 0xfff) by (bit_vector);
        self.vm.preemption_timer = Some(ticks as u32);
        proof {
            assert forall|p: u64| #[trigger] self.vm.ept@.contains_key(p) implies self.mapping_wf(
                p,
            ) by {
                assert(old(self).mapping_wf(p));
            }
        }
    }

    /// Perform a single fuzz case to completion: takes what the machine did last
    /// for the case, and gives what it has to do next.
    ///
    /// The VM may do to the worker what it likes while it runs, and so may the
    /// callbacks, as long as the worker stays well-formed.
    pub fn fuzz_case<I, F>(
        &mut self,
        session: &mut FuzzSession<C, I, F>,
        case: &mut FuzzCase,
        event: CaseEvent,
    ) -> (r: CaseAction)
        requires
            old(self).wf(),
            old(session).wf(),
            old(self).master is Some,
            old(self).session == Some(old(session).id),
            awaits(old(case).phase, event),
            old(self).can_count(*old(session), *old(case), event),
            event matches CaseEvent::Exited { exit, .. } ==> old(self).expects(exit),
        ensures
            final(self).wf(),
            final(session).wf(),
            final(self).master == old(self).master,
            final(self).session == old(self).session,
            final(session).id == old(session).id,
            old(self).case_stepped(
                *final(self),
                *old(session),
                *final(session),
                *old(case),
                *final(case),
                event,
                r,
            ),
    {
        match event {
            CaseEvent::Start { fuzz_start, reset_start } => {
                self.restart();
                case.fuzz_start = fuzz_start;
                case.single_step = 0;
                case.deadline = None;
                case.go_on(CasePhase::Resetting { since: reset_start }, CaseAction::ResetVm)
            },
            CaseEvent::Reset { now } => {
                match case.phase {
                    CasePhase::Resetting { since } => {
                        self.stats.reset_cycles = self.stats.reset_cycles + (now - since);
                    },
                    _ => {},
                }
                // Invoke the injection callback
                if session.inject.is_some() {
                    case.go_on(CasePhase::Injecting, CaseAction::Inject)
                } else {
                    case.go_on_prepared(session)
                }
            },
            CaseEvent::Injected => case.go_on_prepared(session),
            CaseEvent::Deadline { at } => {
                case.deadline = Some(at);
                case.go_on(CasePhase::Checking, CaseAction::ReadClock)
            },
            CaseEvent::Clock { now } => {
                if now >= case.deadline.unwrap_or(u64::MAX) {
                    return case.go_on(
                        CasePhase::Ending { exit: VmExit::Timeout },
                        CaseAction::ReadEndClock,
                    );
                }
                self.enter(case.single_step);
                if case.single_step > 0 {
                    // Decrement number of single steps requested
                    case.single_step = case.single_step - 1;
                }
                case.go_on(CasePhase::Running, CaseAction::Run)
            },
            CaseEvent::Exited { exit, cycles } => {
                self.stats.vmexits = self.stats.vmexits + 1;
                self.stats.vm_cycles = self.stats.vm_cycles + cycles;
                proof {
                    self.lemma_stats_wf(*old(self));
                }
                let handled: bool = self.handle_exit(session, &mut case.single_step, exit);
                if handled {
                    case.go_on(CasePhase::Checking, CaseAction::ReadClock)
                } else if session.vmexit_filter.is_some() {
                    // Attempt to handle the vmexit with the user's callback
                    case.go_on(CasePhase::Filtering { exit }, CaseAction::Filter { exit })
                } else {
                    // Unhandled VM exit
                    case.go_on(CasePhase::Ending { exit }, CaseAction::ReadEndClock)
                }
            },
            CaseEvent::Filtered { handled } => match case.phase {
                CasePhase::Filtering { exit } if !handled => case.go_on(
                    CasePhase::Ending { exit },
                    CaseAction::ReadEndClock,
                ),
                _ => case.go_on(CasePhase::Checking, CaseAction::ReadClock),
            },
            CaseEvent::Ended { now, sync_now } => {
                let exit: VmExit = case.exit();
                // Update number of fuzz cases
                self.stats.fuzz_cases = self.stats.fuzz_cases + 1;
                self.stats.total_cycles = self.stats.total_cycles + (now - case.fuzz_start);
                // Sync the local statistics into the session on an interval
                if sync_now >= self.sync {
                    self.stats.sync_into(&mut session.stats);
                    if self.worker_id == 0 {
                        // Report to the server
                        case.go_on(
                            CasePhase::Reporting { exit },
                            CaseAction::Report { message: session.report_statistics() },
                        )
                    } else {
                        case.go_on(
                            CasePhase::Syncing { exit },
                            CaseAction::ComputeSync { interval: STATISTIC_SYNC_INTERVAL },
                        )
                    }
                } else {
                    case.go_on(CasePhase::Over, CaseAction::Finish { exit })
                }
            },
            CaseEvent::Reported => {
                let exit: VmExit = case.exit();
                case.go_on(
                    CasePhase::Syncing { exit },
                    CaseAction::ComputeSync { interval: STATISTIC_SYNC_INTERVAL },
                )
            },
            CaseEvent::NextSync { at } => {
                let exit: VmExit = case.exit();
                // Set the next sync time
                self.sync = at;
                case.go_on(CasePhase::Over, CaseAction::Finish { exit })
            },
        }
    }

    /// Whether a step of the case can take the event: the worker belongs to the
    /// session, the case waits for the event, all counters have room for it, and an
    /// exit is one that can be handled or left to others.
    pub fn is_due<I, F>(
        &self,
        session: &FuzzSession<C, I, F>,
        case: &FuzzCase,
        event: CaseEvent,
    ) -> (r: bool)
        requires
            self.wf(),
        ensures
            r == {
                &&& self.session == Some(session.id)
                &&& awaits(case.phase, event)
                &&& self.can_count(*session, *case, event)
                &&& event matches CaseEvent::Exited { exit, .. } ==> self.expects(exit)
            },
    {
        match self.session {
            Some(id) if id == session.id => {},
            _ => {
                return false;
            },
        }
        match (event, case.phase) {
            (CaseEvent::Start { .. }, CasePhase::New) => true,
            (CaseEvent::Reset { now }, CasePhase::Resetting { since }) => {
                since <= now && self.stats.reset_cycles <= u64::MAX - (now - since)
            },
            (CaseEvent::Injected, CasePhase::Injecting) => true,
            (CaseEvent::Deadline { .. }, CasePhase::Timing) => true,
            (CaseEvent::Clock { .. }, CasePhase::Checking) => true,
            (CaseEvent::Exited { exit, cycles }, CasePhase::Running) => {
                self.stats.vmexits < u64::MAX && self.stats.vm_cycles <= u64::MAX - cycles
                    && self.is_expected(exit)
            },
            (CaseEvent::Filtered { .. }, CasePhase::Filtering { .. }) => true,
            (CaseEvent::Ended { now, sync_now }, CasePhase::Ending { .. }) => {
                if now < case.fuzz_start || self.stats.fuzz_cases == u64::MAX
                    || self.stats.total_cycles > u64::MAX - (now - case.fuzz_start) {
                    return false;
                }
                let mut stats: Statistics = self.stats;
                stats.fuzz_cases = stats.fuzz_cases + 1;
                stats.total_cycles = stats.total_cycles + (now - case.fuzz_start);
                sync_now < self.sync || session.stats.has_room_for(&stats)
            },
            (CaseEvent::Reported, CasePhase::Reporting { .. }) => true,
            (CaseEvent::NextSync { .. }, CasePhase::Syncing { .. }) => true,
            _ => false,
        }
    }

    /// Counting keeps a worker well-formed.
    proof fn lemma_stats_wf(&self, before: Self)
        requires
            before.wf(),
            *self == (Worker { stats: self.stats, sync: self.sync, ..before }),
        ensures
            self.wf(),
    {
        assert forall|p: u64| #[trigger] self.vm.ept@.contains_key(p) implies self.mapping_wf(
            p,
        ) by {
            assert(before.mapping_wf(p));
        }
    }
}

/// No fuzz case, cycle or exit is lost or counted twice: what a worker and its
/// session have counted together grows with each step by what the step counts,
/// whether or not the worker syncs.
pub proof fn law_statistics_add_up<C, I, F>(
    worker: &Worker<C>,
    after: &Worker<C>,
    session: &FuzzSession<C, I, F>,
    session_after: &FuzzSession<C, I, F>,
    case: FuzzCase,
    case_after: FuzzCase,
    event: CaseEvent,
    action: CaseAction,
)
    requires
        awaits(case.phase, event),
        worker.can_count(*session, case, event),
        worker.case_stepped(
            *after,
            *session,
            *session_after,
            case,
            case_after,
            event,
            action,
        ),
    ensures
        ({
            let before = (worker.stats, session.stats);
            let now = (after.stats, session_after.stats);
            &&& now.0.fuzz_cases + now.1.fuzz_cases == before.0.fuzz_cases + before.1.fuzz_cases + (
            if event is Ended {
                1int
            } else {
                0
            })
            &&& now.0.reset_cycles + now.1.reset_cycles == before.0.reset_cycles
                + before.1.reset_cycles + (match event {
                CaseEvent::Reset { now } => now - case.phase->Resetting_since,
                _ => 0,
            })
            &&& now.0.total_cycles + now.1.total_cycles == before.0.total_cycles
                + before.1.total_cycles + (match event {
                CaseEvent::Ended { now, .. } => now - case.fuzz_start,
                _ => 0,
            })
            &&& now.0.vm_cycles + now.1.vm_cycles == before.0.vm_cycles + before.1.vm_cycles + (
            match event {
                CaseEvent::Exited { cycles, .. } => cycles as int,
                _ => 0,
            })
            &&& now.0.vmexits + now.1.vmexits == before.0.vmexits + before.1.vmexits + (
            if event is Exited {
                1int
            } else {
                0
            })
        }),
{
}

/// Once a fuzz case has ended with an exit, it keeps that exit through all steps
/// that are left, and finishes with it.
pub proof fn law_exit_is_kept<C, I, F>(
    worker: &Worker<C>,
    after: &Worker<C>,
    session: &FuzzSession<C, I, F>,
    session_after: &FuzzSession<C, I, F>,
    case: FuzzCase,
    case_after: FuzzCase,
    event: CaseEvent,
    action: CaseAction,
)
    requires
        awaits(case.phase, event),
        case.ends_with() is Some,
        worker.case_stepped(
            *after,
            *session,
            *session_after,
            case,
            case_after,
            event,
            action,
        ),
    ensures
        match action {
            CaseAction::Finish { exit } => Some(exit) == case.ends_with() && case_after.phase is Over,
            _ => case_after.ends_with() == case.ends_with(),
        },
{
}

/// No step of a fuzz case forgets coverage or an input that was found, and none
/// changes the master that all fuzz cases start from.
pub proof fn law_nothing_found_is_lost<C, I, F>(
    worker: &Worker<C>,
    after: &Worker<C>,
    session: &FuzzSession<C, I, F>,
    session_after: &FuzzSession<C, I, F>,
    case: FuzzCase,
    case_after: FuzzCase,
    event: CaseEvent,
    action: CaseAction,
)
    requires
        worker.case_stepped(
            *after,
            *session,
            *session_after,
            case,
            case_after,
            event,
            action,
        ),
    ensures
        session.coverage@.subset_of(session_after.coverage@),
        forall|input: Seq<u8>| #[trigger]
            input_bytes(session.inputs@).contains(input) ==> input_bytes(
                session_after.inputs@,
            ).contains(input),
        session_after.master_vm == session.master_vm,
        after.master == worker.master,
{
    if worker.fuzz_input is Some {
        assert forall|input: Seq<u8>| #[trigger]
            input_bytes(session.inputs@).contains(input) implies input_bytes(
            session_after.inputs@,
        ).contains(input) by {
            law_input_is_kept_once(
                input_bytes(session.inputs@),
                worker.fuzz_input->0@,
                input,
            );
        }
    }
}

/// However differently two workers of one master have gone on, their next fuzz
/// cases start with the same registers and the same memory.
pub proof fn law_cases_start_alike<C>(
    a: &Worker<C>,
    a_started: &Worker<C>,
    b: &Worker<C>,
    b_started: &Worker<C>,
)
    requires
        a.master == b.master,
        a_started.restarted(*a),
        b_started.restarted(*b),
    ensures
        a_started.vm.guest_regs == b_started.vm.guest_regs,
        forall|p: u64| #[trigger] a_started.page(p) == b_started.page(p),
        forall|addr: u64| #[trigger] a_started.mem(addr) == b_started.mem(addr),
{
    assert forall|p: u64| #[trigger] a_started.page(p) == b_started.page(p) by {
        assert(a_started.page(p) == a.master->0.page(p));
        assert(b_started.page(p) == b.master->0.page(p));
    }
    assert forall|addr: u64| #[trigger] a_started.mem(addr) == b_started.mem(addr) by {
        assert(a_started.page(page_of(addr)) == b_started.page(page_of(addr)));
    }
}

/// The start of a fuzz case undoes every write since the worker was forked, and
/// every write since the fuzz case before it started.
pub proof fn law_start_undoes_writes<C>(
    fresh: &Worker<C>,
    used: &Worker<C>,
    started: &Worker<C>,
)
    requires
        fresh.master is Some,
        forall|p: u64| #[trigger] fresh.page(p) == fresh.master->0.page(p),
        used.master == fresh.master,
        started.restarted(*used),
    ensures
        forall|p: u64| #[trigger] started.page(p) == fresh.page(p),
        forall|addr: u64| #[trigger] started.mem(addr) == fresh.mem(addr),
{
    assert forall|p: u64| #[trigger] started.page(p) == fresh.page(p) by {
        assert(started.page(p) == used.master->0.page(p));
    }
    assert forall|addr: u64| #[trigger] started.mem(addr) == fresh.mem(addr) by {
        assert(started.page(page_of(addr)) == fresh.page(page_of(addr)));
    }
}

/// After a fuzz case started, no page is dirty.
pub proof fn law_start_leaves_nothing_dirty<C>(used: &Worker<C>, started: &Worker<C>, page: u64)
    requires
        started.restarted(*used),
        started.vm.ept@.contains_key(page),
    ensures
        !started.vm.ept@[page].dirty,
{
}

/// How many single steps are left once the guest was entered `n` times.
pub open spec fn steps_left_after(single_step: u32, n: nat) -> u32
    decreases n,
{
    if n == 0 {
        single_step
    } else {
        steps_left(steps_left_after(single_step, (n - 1) as nat))
    }
}

/// Where `single_step` single steps are asked for, the guest is entered with the
/// trap flag that many times, and then without it.
pub proof fn law_single_steps(single_step: u32, n: nat, rflags: u64)
    ensures
        steps_left_after(single_step, n) == if n < single_step {
            single_step - n
        } else {
            0
        },
        has_bit(entry_flags(rflags, steps_left_after(single_step, n)), 8) <==> n < single_step,
        forall|bit: u64|
            bit < 64 && bit != 8 ==> #[trigger] has_bit(
                entry_flags(rflags, steps_left_after(single_step, n)),
                bit,
            ) == has_bit(rflags, bit),
    decreases n,
{
    if n > 0 {
        law_single_steps(single_step, (n - 1) as nat, rflags);
    }
    assert((rflags | (1u64 << 8)) & (1u64 << 8) != 0) by (bit_vector);
    assert((rflags & !(1u64 << 8)) & (1u64 << 8) == 0) by (bit_vector);
    assert forall|bit: u64| bit < 64 && bit != 8 implies #[trigger] has_bit(
        entry_flags(rflags, steps_left_after(single_step, n)),
        bit,
    ) == has_bit(rflags, bit) by {
        assert((rflags | (1u64 << 8)) & (1u64 << bit) == rflags & (1u64 << bit)) by (bit_vector)
            requires
                bit < 64,
                bit != 8,
        ;
        assert((rflags & !(1u64 << 8)) & (1u64 << bit) == rflags & (1u64 << bit)) by (bit_vector)
            requires
                bit < 64,
                bit != 8,
        ;
    }
}

} // verus!
