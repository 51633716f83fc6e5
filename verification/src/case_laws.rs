//! How fuzz cases go: when they end, with what, and what they find on the way.
use vstd::prelude::*;
use crate::case::{law_nothing_found_is_lost, CaseAction, CaseEvent, CasePhase};
use crate::runs::{exit_of, is_alone, is_left, is_run, CaseStep};
use crate::session::{input_bytes, pending_places};
use crate::vm::VmExit;

verus! {

/// How far a case has come.
spec fn stage(phase: CasePhase) -> int {
    match phase {
        CasePhase::New => 0,
        CasePhase::Resetting { .. } => 1,
        CasePhase::Injecting => 2,
        CasePhase::Timing => 3,
        CasePhase::Checking => 4,
        CasePhase::Running => 4,
        CasePhase::Filtering { .. } => 4,
        CasePhase::Ending { .. } => 5,
        CasePhase::Reporting { .. } => 6,
        CasePhase::Syncing { .. } => 7,
        CasePhase::Over => 8,
    }
}

impl<C, I, F> CaseStep<C, I, F> {
    /// The step was told a deadline that has passed at `now`.
    pub open spec fn sets_deadline_passed_at(self, now: u64) -> bool {
        match self.event {
            CaseEvent::Deadline { at } => now >= at,
            _ => false,
        }
    }

    /// The step was told a deadline.
    pub open spec fn sets_deadline(self) -> bool {
        self.event is Deadline
    }

    /// Where the exit that a case has in hand comes from, and where it goes.
    proof fn lemma_ends(&self)
        requires
            self.is_step(),
        ensures
            forall|x: VmExit|
                #![trigger self.reports(x)]
                exit_of(self.case_after.phase) == Some(x) ==> exit_of(self.case.phase) == Some(x)
                    || self.reports(x) || x == VmExit::Timeout && self.event is Clock
                    && self.case_after.phase is Ending,
            forall|x: VmExit|
                #![trigger self.reports(x)]
                self.action == (CaseAction::Finish { exit: x }) ==> exit_of(self.case.phase) == Some(
                    x,
                ),
            self.action is Finish ==> self.case_after.phase is Over && self.event !is Exited,
            self.case.phase is Checking ==> self.event is Clock,
            self.case.phase is Filtering ==> self.event is Filtered,
            self.event == (CaseEvent::Filtered { handled: true }) ==> self.case_after.phase is Checking,
            self.event is Filtered && self.case_after.phase !is Checking ==> self.event == (
            CaseEvent::Filtered { handled: false }),
            self.event is Filtered ==> self.action !is Finish,
            self.event matches CaseEvent::Clock { now } ==> (self.case_after.phase is Ending
                <==> match self.case.deadline {
                Some(at) => now >= at,
                None => now == u64::MAX,
            }),
            self.event is Clock && self.case_after.phase is Ending ==> self.case_after.phase == (
            CasePhase::Ending { exit: VmExit::Timeout }) && self.action is ReadEndClock,
            self.action is Run <==> self.event is Clock && self.case_after.phase !is Ending,
            self.event == (CaseEvent::Filtered { handled: false }) ==> (exit_of(
                self.case.phase,
            ) matches Some(exit) && self.case_after.phase == (CasePhase::Ending { exit })),
            stage(self.case.phase) >= 5 ==> {
                &&& self.event !is Clock && self.event !is Exited && self.event !is Filtered
                &&& self.action !is Run && self.action !is Filter && self.action !is Inject
                &&& self.case.phase !is Over
                &&& stage(self.case_after.phase) >= 5
                &&& exit_of(self.case_after.phase) == exit_of(self.case.phase) || self.action is Finish
                &&& self.action is Finish ==> (exit_of(self.case.phase) matches Some(exit)
                    && self.action == (CaseAction::Finish { exit }))
            },
    {
        reveal(CaseStep::is_step);
    }

    proof fn lemma_report(&self, exit: VmExit)
        requires
            self.is_step(),
            self.reports(exit),
        ensures
            self.action !is Finish,
            self.case_after.phase is Checking || is_left(self.worker, exit),
            self.case_after.phase is Checking || self.case_after.phase is Filtering
                || self.session.vmexit_filter is None,
            is_left(self.worker, exit) ==> exit_of(self.case_after.phase) == Some(exit),
            is_left(self.worker, exit) && self.session.vmexit_filter is None
                ==> self.case_after.phase == (CasePhase::Ending { exit }),
    {
        reveal(CaseStep::is_step);
    }

    /// When a deadline is asked for.
    proof fn lemma_timing(&self)
        requires
            self.is_step(),
        ensures
            self.session_after.timeout == self.session.timeout,
            self.case_after.phase is Timing ==> (self.session.timeout matches Some(timeout)
                && self.action == (CaseAction::ComputeDeadline { timeout })),
            self.action is ComputeDeadline ==> self.session.timeout is Some,
            stage(self.case.phase) < 4 && stage(self.case_after.phase) >= 4 ==> self.event is Deadline
                || self.session.timeout is None,
    {
        reveal(CaseStep::is_step);
    }

    proof fn lemma_stage_step(&self)
        requires
            self.is_step(),
        ensures
            stage(self.case_after.phase) >= stage(self.case.phase),
            stage(self.case.phase) != 4 ==> stage(self.case_after.phase) > stage(self.case.phase),
            self.event is Deadline ==> stage(self.case.phase) == 3,
            self.event is Clock ==> stage(self.case.phase) == 4,
            self.event is Exited ==> stage(self.case.phase) == 4,
            self.event is Filtered ==> stage(self.case.phase) == 4,
            self.event is Ended ==> stage(self.case.phase) == 5,
            self.event is Start <==> stage(self.case.phase) == 0,
            self.event is Start ==> self.case_after.deadline is None,
            self.event matches CaseEvent::Deadline { at } ==> self.case_after.deadline == Some(at),
            self.event !is Start && self.event !is Deadline ==> self.case_after.deadline
                == self.case.deadline,
    {
        reveal(CaseStep::is_step);
    }
}

/// A case does not go back.
proof fn lemma_stage<C, I, F>(steps: Seq<CaseStep<C, I, F>>, i: int, j: int)
    requires
        is_run(steps),
        0 <= i <= j < steps.len(),
    ensures
        i < j ==> stage(steps[j].case.phase) >= stage(steps[i].case_after.phase),
        stage(steps[j].case_after.phase) >= stage(steps[i].case_after.phase),
    decreases j - i,
{
    assert(steps[j].is_step());
    steps[j].lemma_stage_step();
    if i < j {
        lemma_stage(steps, i, j - 1);
        assert(steps[j - 1].leads_to(steps[j]));
    }
}

/// A case ends once.
pub(crate) proof fn lemma_one_end<C, I, F>(steps: Seq<CaseStep<C, I, F>>, i: int, j: int)
    requires
        is_run(steps),
        0 <= i < j < steps.len(),
        steps[i].event is Ended,
    ensures
        steps[j].event !is Ended,
{
    steps[i].lemma_stage_step();
    steps[j].lemma_stage_step();
    lemma_stage(steps, i, j);
}

/// The step number `i` of a case was told a time at which the case has run for too
/// long: the deadline that was told before has come or, if there is no deadline,
/// the clock has run out.
pub open spec fn ran_out<C, I, F>(steps: Seq<CaseStep<C, I, F>>, i: int) -> bool {
    match steps[i].event {
        CaseEvent::Clock { now } => {
            ||| exists|j: int| 0 <= j < i && (#[trigger] steps[j]).sets_deadline_passed_at(now)
            ||| now == u64::MAX && forall|j: int| 0 <= j < i ==> !(#[trigger] steps[j]).sets_deadline()
        },
        _ => false,
    }
}

/// The deadline that a case goes by is the one that it was told.
#[verifier::spinoff_prover]
#[verifier::rlimit(40)]
proof fn lemma_deadline<C, I, F>(steps: Seq<CaseStep<C, I, F>>, m: int)
    requires
        is_run(steps),
        0 <= m < steps.len(),
    ensures
        forall|j: int|
            0 <= j < m ==> ((#[trigger] steps[j]).event matches CaseEvent::Deadline { at }
                ==> steps[m].case.deadline == Some(at)),
        steps[m].case.deadline matches Some(at) ==> (exists|j: int|
            0 <= j < m && (#[trigger] steps[j]).event == (CaseEvent::Deadline { at })),
    decreases m,
{
    if m > 0 {
        let prev = steps[m - 1];
        lemma_deadline(steps, m - 1);
        assert(prev.is_step());
        assert(prev.leads_to(steps[m]));
        prev.lemma_stage_step();
        assert forall|j: int| 0 <= j < m implies ((
        #[trigger] steps[j]).event matches CaseEvent::Deadline { at } ==> steps[m].case.deadline
            == Some(at)) by {
            if j < m - 1 && steps[j].event is Deadline {
                assert(steps[j].is_step());
                steps[j].lemma_stage_step();
                lemma_stage(steps, j, m - 1);
                assert(prev.event !is Deadline);
                assert(prev.event !is Start);
            }
        }
        if steps[m].case.deadline is Some {
            let at = steps[m].case.deadline->0;
            if prev.event is Deadline {
                assert(steps[m - 1].event == (CaseEvent::Deadline { at }));
            } else {
                assert(prev.event !is Start);
                assert(prev.case.deadline == Some(at));
                let j = choose|j: int|
                    0 <= j < m - 1 && (#[trigger] steps[j]).event == (CaseEvent::Deadline { at });
                assert(steps[j].event == (CaseEvent::Deadline { at }));
            }
        }
    }
}

/// A step is told that the time is up if and only if the case is then late.
proof fn lemma_ran_out<C, I, F>(steps: Seq<CaseStep<C, I, F>>, i: int)
    requires
        is_run(steps),
        0 <= i < steps.len(),
    ensures
        steps[i].event matches CaseEvent::Clock { now } ==> (ran_out(steps, i)
            <==> match steps[i].case.deadline {
            Some(at) => now >= at,
            None => now == u64::MAX,
        }),
{
    lemma_deadline(steps, i);
    match steps[i].event {
        CaseEvent::Clock { now } => {
            match steps[i].case.deadline {
                Some(at) => {
                    let j = choose|j: int|
                        0 <= j < i && (#[trigger] steps[j]).event == (CaseEvent::Deadline { at });
                    assert(steps[j].sets_deadline());
                    if now >= at {
                        assert(steps[j].sets_deadline_passed_at(now));
                    }
                    if ran_out(steps, i) {
                        let l = choose|l: int|
                            0 <= l < i && (#[trigger] steps[l]).sets_deadline_passed_at(now);
                        assert(steps[l].event is Deadline);
                    }
                },
                None => {
                    assert forall|j: int| 0 <= j < i implies !(#[trigger] steps[j]).sets_deadline() by {
                        if steps[j].event is Deadline {
                            assert(false);
                        }
                    }
                    assert forall|j: int| 0 <= j < i implies !(
                    #[trigger] steps[j]).sets_deadline_passed_at(now) by {
                        assert(!steps[j].sets_deadline());
                    }
                },
            }
        },
        _ => {},
    }
}

/// Once a case ends with an exit, it ends with that exit.
#[verifier::spinoff_prover]
#[verifier::rlimit(40)]
proof fn lemma_ending<C, I, F>(steps: Seq<CaseStep<C, I, F>>, i: int, m: int, exit: VmExit)
    requires
        is_run(steps),
        0 <= i <= m < steps.len(),
        steps[i].case_after.phase == (CasePhase::Ending { exit }),
    ensures
        exit_of(steps[m].case_after.phase) == Some(exit) || m > i && steps[m].action == (
        CaseAction::Finish { exit }),
        stage(steps[m].case_after.phase) >= 5,
        i < m ==> steps[m].event !is Clock && steps[m].event !is Exited && steps[m].event !is Filtered,
        m > i && steps[m].action is Finish ==> steps[m].action == (CaseAction::Finish { exit }),
        i < m ==> steps[m].action !is Run && steps[m].action !is Filter && steps[m].action !is Inject,
    decreases m - i,
{
    if i < m {
        lemma_ending(steps, i, m - 1, exit);
        assert(steps[m - 1].leads_to(steps[m]));
        assert(steps[m].is_step());
        steps[m].lemma_ends();
        steps[m].lemma_stage_step();
        if m - 1 > i {
            steps[m - 1].lemma_ends();
        }
    }
}

/// The guest is entered only before the deadline, and always then: a step that is
/// told the time asks for the guest to be run if and only if the case has not run
/// out of time. Once it has, the guest is not run again, no exit is given to the
/// filter, and the case finishes with a timeout, whatever else it is doing.
#[verifier::spinoff_prover]
#[verifier::rlimit(40)]
pub proof fn law_time_limit<C, I, F>(steps: Seq<CaseStep<C, I, F>>, i: int)
    requires
        is_run(steps),
        0 <= i < steps.len(),
    ensures
        steps[i].action is Run <==> steps[i].event is Clock && !ran_out(steps, i),
        ran_out(steps, i) ==> {
            &&& steps[i].action is ReadEndClock
            &&& forall|j: int|
                i < j < steps.len() ==> {
                    let s = #[trigger] steps[j];
                    &&& s.action !is Run
                    &&& s.action !is Filter
                    &&& s.event !is Clock
                }
            &&& steps.last().action is Finish ==> steps.last().action == (CaseAction::Finish {
                exit: VmExit::Timeout,
            })
        },
{
    assert(steps[i].is_step());
    steps[i].lemma_ends();
    lemma_ran_out(steps, i);
    if ran_out(steps, i) {
        assert forall|j: int| i < j < steps.len() implies {
            let s = #[trigger] steps[j];
            &&& s.action !is Run
            &&& s.action !is Filter
            &&& s.event !is Clock
        } by {
            lemma_ending(steps, i, j, VmExit::Timeout);
        }
        lemma_ending(steps, i, steps.len() - 1, VmExit::Timeout);
    }
}

/// Before the guest is first entered, the deadline is asked for exactly if there is
/// a timeout, and it is the timeout of the session that is asked for.
#[verifier::spinoff_prover]
#[verifier::rlimit(40)]
proof fn lemma_timeout<C, I, F>(steps: Seq<CaseStep<C, I, F>>, m: int)
    requires
        is_run(steps),
        0 <= m < steps.len(),
    ensures
        steps[m].session.timeout == steps[0].session.timeout,
        match steps[0].session.timeout {
            Some(timeout) => {
                &&& steps[m].case.phase is Timing ==> m > 0 && steps[m - 1].action == (
                CaseAction::ComputeDeadline { timeout })
                &&& stage(steps[m].case.phase) >= 4 ==> (exists|j: int|
                    0 < j < m && (#[trigger] steps[j]).sets_deadline())
            },
            None => steps[m].case.phase !is Timing,
        },
        steps[m].case.phase is Timing ==> m > 0,
    decreases m,
{
    if m > 0 {
        let prev = steps[m - 1];
        lemma_timeout(steps, m - 1);
        assert(prev.is_step());
        assert(prev.leads_to(steps[m]));
        prev.lemma_stage_step();
        prev.lemma_timing();
        if steps[0].session.timeout is Some && stage(steps[m].case.phase) >= 4 {
            if stage(prev.case.phase) >= 4 {
                let j = choose|j: int| 0 < j < m - 1 && (#[trigger] steps[j]).sets_deadline();
                assert(steps[j].sets_deadline());
            } else {
                assert(steps[m - 1].sets_deadline());
            }
        }
    }
}

/// A session with a timeout has the time computed that lies the timeout ahead,
/// before the time is first looked at, and goes by that deadline. A session without
/// one has none computed.
pub proof fn law_timeout_sets_deadline<C, I, F>(steps: Seq<CaseStep<C, I, F>>, i: int)
    requires
        is_run(steps),
        0 <= i < steps.len(),
    ensures
        match steps[0].session.timeout {
            Some(timeout) => {
                &&& steps[i].event is Clock ==> (exists|j: int|
                    0 < j < i && (#[trigger] steps[j]).sets_deadline())
                &&& steps[i].event is Deadline ==> i > 0 && steps[i - 1].action == (
                CaseAction::ComputeDeadline { timeout })
            },
            None => steps[i].event !is Deadline && steps[i].action !is ComputeDeadline,
        },
{
    assert(steps[i].is_step());
    steps[i].lemma_stage_step();
    steps[i].lemma_timing();
    lemma_timeout(steps, i);
}

/// An exit that is handled lets the guest go on, an exit that is left goes to the
/// filter as it is, or ends the case where there is no filter. The filter decides
/// whether the guest goes on.
pub proof fn law_exits_are_told_apart<C, I, F>(s: CaseStep<C, I, F>, exit: VmExit)
    requires
        s.is_step(),
    ensures
        s.reports(exit) && !is_left(s.worker, exit) ==> s.action is ReadClock,
        s.reports(exit) && is_left(s.worker, exit) ==> s.action == if s.session.vmexit_filter is Some {
            CaseAction::Filter { exit }
        } else {
            CaseAction::ReadEndClock
        },
        s.event == (CaseEvent::Filtered { handled: true }) ==> s.action is ReadClock,
        s.event == (CaseEvent::Filtered { handled: false }) ==> s.action is ReadEndClock,
        s.action is Filter ==> s.reports(exit) ==> is_left(s.worker, exit),
{
    reveal(CaseStep::is_step);
}

/// The guest stopped with an exit that is left, and nobody handled it: there is no
/// filter, or the filter declined it.
pub open spec fn is_declined<C, I, F>(
    steps: Seq<CaseStep<C, I, F>>,
    i: int,
    exit: VmExit,
) -> bool {
    &&& steps[i].reports(exit)
    &&& is_left(steps[i].worker, exit)
    &&& steps[i].session.vmexit_filter is None || i + 1 < steps.len() && steps[i + 1].event == (
    CaseEvent::Filtered { handled: false })
}

/// Where a case ends with a timeout, it has run out of time, or the guest itself
/// stopped with one.
#[verifier::spinoff_prover]
#[verifier::rlimit(40)]
proof fn lemma_timeout_is_meant<C, I, F>(steps: Seq<CaseStep<C, I, F>>, m: int)
    requires
        is_run(steps),
        0 <= m < steps.len(),
    ensures
        exit_of(steps[m].case_after.phase) == Some(VmExit::Timeout) || steps[m].action == (
        CaseAction::Finish { exit: VmExit::Timeout }) ==> exists|i: int|
            0 <= i <= m && (ran_out(steps, i) || (#[trigger] steps[i]).reports(VmExit::Timeout)),
    decreases m,
{
    let s = steps[m];
    let timeout = VmExit::Timeout;
    s.lemma_ends();
    if exit_of(s.case_after.phase) == Some(timeout) || s.action == (CaseAction::Finish {
        exit: timeout,
    }) {
        if s.reports(timeout) {
            assert(steps[m].reports(timeout));
        } else if exit_of(s.case.phase) == Some(timeout) {
            assert(m > 0);
            lemma_timeout_is_meant(steps, m - 1);
            assert(steps[m - 1].leads_to(s));
            let i = choose|i: int|
                0 <= i <= m - 1 && (ran_out(steps, i) || (#[trigger] steps[i]).reports(timeout));
            assert(ran_out(steps, i) || steps[i].reports(timeout));
        } else {
            lemma_ran_out(steps, m);
            assert(ran_out(steps, m) || steps[m].reports(timeout));
        }
    }
}

/// A fuzz case finishes with the exit that nobody handled, as it is, and with a
/// timeout only if it has run out of time or the guest itself stopped with one.
#[verifier::spinoff_prover]
#[verifier::rlimit(40)]
pub proof fn law_finishes_with<C, I, F>(steps: Seq<CaseStep<C, I, F>>, finish: VmExit)
    requires
        is_run(steps),
        steps.last().action == (CaseAction::Finish { exit: finish }),
    ensures
        finish == VmExit::Timeout ==> exists|i: int|
            0 <= i < steps.len() && (ran_out(steps, i) || (#[trigger] steps[i]).reports(
                VmExit::Timeout,
            )),
        forall|i: int, exit: VmExit|
            0 <= i < steps.len() && #[trigger] is_declined(steps, i, exit) ==> finish == exit,
        forall|i: int, exit: VmExit|
            0 <= i < steps.len() && #[trigger] steps[i].reports(exit) && (forall|j: int|
                i < j < steps.len() ==> (#[trigger] steps[j]).event !is Clock) ==> finish == exit,
{
    let last = steps.len() - 1;
    lemma_timeout_is_meant(steps, last);
    if finish == VmExit::Timeout {
        let i = choose|i: int|
            0 <= i <= last && (ran_out(steps, i) || (#[trigger] steps[i]).reports(VmExit::Timeout));
        assert(ran_out(steps, i) || steps[i].reports(VmExit::Timeout));
    }
    assert forall|i: int, exit: VmExit|
        0 <= i < steps.len() && #[trigger] is_declined(steps, i, exit) implies finish == exit by {
        lemma_declined(steps, i, exit);
    }
    assert forall|i: int, exit: VmExit|
        0 <= i < steps.len() && #[trigger] steps[i].reports(exit) && (forall|j: int|
            i < j < steps.len() ==> (#[trigger] steps[j]).event !is Clock) implies finish
        == exit by {
        lemma_last_report(steps, i, exit);
        lemma_declined(steps, i, exit);
    }
}

/// Where the time is not looked at after the guest stopped, nobody handled the exit.
#[verifier::spinoff_prover]
#[verifier::rlimit(40)]
proof fn lemma_last_report<C, I, F>(steps: Seq<CaseStep<C, I, F>>, i: int, exit: VmExit)
    requires
        is_run(steps),
        0 <= i < steps.len(),
        steps[i].reports(exit),
        steps.last().action is Finish,
        forall|j: int| i < j < steps.len() ==> (#[trigger] steps[j]).event !is Clock,
    ensures
        is_declined(steps, i, exit),
{
    let last = steps.len() - 1;
    steps[i].lemma_report(exit);
    steps[last].lemma_ends();
    assert(i < last);
    assert(steps[i].leads_to(steps[i + 1]));
    steps[i + 1].lemma_ends();
    assert(steps[i + 1].event !is Clock);
    if steps[i].case_after.phase is Filtering && steps[i + 1].case_after.phase is Checking {
        assert(i + 1 < last);
        assert(steps[i + 1].leads_to(steps[i + 2]));
        steps[i + 2].lemma_ends();
        assert(steps[i + 2].event !is Clock);
    }
}

#[verifier::spinoff_prover]
#[verifier::rlimit(40)]
proof fn lemma_declined<C, I, F>(steps: Seq<CaseStep<C, I, F>>, i: int, exit: VmExit)
    requires
        is_run(steps),
        0 <= i < steps.len(),
        is_declined(steps, i, exit),
        steps.last().action is Finish,
    ensures
        steps.last().action == (CaseAction::Finish { exit }),
{
    let last = steps.len() - 1;
    assert(steps[i].is_step());
    assert(steps[last].is_step());
    steps[i].lemma_report(exit);
    if steps[i].session.vmexit_filter is None {
        lemma_ending(steps, i, last, exit);
    } else {
        assert(steps[i].leads_to(steps[i + 1]));
        assert(steps[i + 1].is_step());
        steps[i + 1].lemma_ends();
        lemma_ending(steps, i + 1, last, exit);
    }
}

/// Where the guest is sampled at a place that is new, the place becomes known and
/// is to be reported, the input of the worker is kept, and a thousand single steps
/// are to follow. Where the place is known, nothing becomes known by it.
pub proof fn law_new_place_is_recorded<C, I, F>(s: CaseStep<C, I, F>)
    requires
        s.is_step(),
        s.samples(),
    ensures
        s.action is ReadClock,
        s.session_after.coverage@.contains(s.worker.place()),
        !s.session.coverage@.contains(s.worker.place()) ==> {
            &&& s.worker.fuzz_input matches Some(input) ==> input_bytes(
                s.session_after.inputs@,
            ).contains(input@)
            &&& pending_places(s.session_after.pending_coverage@) == pending_places(
                s.session.pending_coverage@,
            ).push(s.worker.place())
            &&& s.case_after.single_step == 1000
        },
        s.session.coverage@.contains(s.worker.place()) ==> {
            &&& input_bytes(s.session_after.inputs@) == input_bytes(s.session.inputs@)
            &&& pending_places(s.session_after.pending_coverage@) == pending_places(
                s.session.pending_coverage@,
            )
            &&& s.case_after.single_step == s.case.single_step
        },
        forall|place: (Option<Seq<char>>, u64)| #[trigger]
            s.session_after.coverage@.contains(place) <==> s.session.coverage@.contains(place)
                || place == s.worker.place(),
{
    reveal(CaseStep::is_step);
    if s.worker.fuzz_input is Some {
        let inputs = input_bytes(s.session.inputs@);
        let input = s.worker.fuzz_input->0@;
        assert(inputs.push(input)[inputs.len() as int] == input);
    }
}

/// A step in which the guest is not sampled finds nothing.
pub proof fn law_only_samples_find<C, I, F>(s: CaseStep<C, I, F>)
    requires
        s.is_step(),
        !s.samples(),
    ensures
        s.session_after.coverage == s.session.coverage,
        s.session_after.pending_coverage == s.session.pending_coverage,
        s.session_after.inputs == s.session.inputs,
{
    reveal(CaseStep::is_step);
}

#[verifier::spinoff_prover]
#[verifier::rlimit(40)]
proof fn lemma_inputs_stay<C, I, F>(steps: Seq<CaseStep<C, I, F>>, i: int, m: int, input: Seq<u8>)
    requires
        is_run(steps),
        is_alone(steps),
        0 <= i <= m < steps.len(),
        steps[i].finds_by(input),
    ensures
        input_bytes(steps[m].session_after.inputs@).contains(input),
    decreases m - i,
{
    let s = steps[m];
    assert(s.is_step());
    if i == m {
        law_new_place_is_recorded(s);
    } else {
        lemma_inputs_stay(steps, i, m - 1, input);
        assert(s.session == steps[m - 1].session_after);
        s.lemma_inputs_kept(input);
    }
}

impl<C, I, F> CaseStep<C, I, F> {
    /// A step forgets no input.
    proof fn lemma_inputs_kept(&self, input: Seq<u8>)
        requires
            self.is_step(),
            input_bytes(self.session.inputs@).contains(input),
        ensures
            input_bytes(self.session_after.inputs@).contains(input),
    {
        reveal(CaseStep::is_step);
        law_nothing_found_is_lost(
            &self.worker,
            &self.after,
            &self.session,
            &self.session_after,
            self.case,
            self.case_after,
            self.event,
            self.action,
        );
    }
}

/// Every input by which a fuzz case has found new coverage is among the inputs of
/// the session once the case is over.
pub proof fn law_inputs_are_complete<C, I, F>(
    steps: Seq<CaseStep<C, I, F>>,
    i: int,
    input: Seq<u8>,
)
    requires
        is_run(steps),
        is_alone(steps),
        0 <= i < steps.len(),
        steps[i].finds_by(input),
    ensures
        input_bytes(steps.last().session_after.inputs@).contains(input),
{
    lemma_inputs_stay(steps, i, steps.len() - 1, input);
}

/// One of the first `n` steps sampled the guest at the place.
pub open spec fn was_sampled<C, I, F>(
    steps: Seq<CaseStep<C, I, F>>,
    n: int,
    place: (Option<Seq<char>>, u64),
) -> bool {
    exists|i: int| 0 <= i < n && (#[trigger] steps[i]).samples() && steps[i].worker.place() == place
}

#[verifier::spinoff_prover]
#[verifier::rlimit(40)]
proof fn lemma_coverage<C, I, F>(
    steps: Seq<CaseStep<C, I, F>>,
    n: int,
    place: (Option<Seq<char>>, u64),
)
    requires
        is_run(steps),
        is_alone(steps),
        0 < n <= steps.len(),
    ensures
        steps[n - 1].session_after.coverage@.contains(place) <==> steps[0].session.coverage@.contains(
            place,
        ) || was_sampled(steps, n, place),
    decreases n,
{
    let s = steps[n - 1];
    assert(s.is_step());
    if s.samples() {
        law_new_place_is_recorded(s);
        if s.worker.place() == place {
            assert(steps[n - 1].samples() && steps[n - 1].worker.place() == place);
        }
    } else {
        law_only_samples_find(s);
    }
    if n > 1 {
        lemma_coverage(steps, n - 1, place);
        assert(s.session == steps[n - 2].session_after);
        if was_sampled(steps, n - 1, place) {
            let i = choose|i: int|
                0 <= i < n - 1 && (#[trigger] steps[i]).samples() && steps[i].worker.place()
                    == place;
            assert(steps[i].samples());
        }
        if was_sampled(steps, n, place) && !was_sampled(steps, n - 1, place) {
            assert(s.samples() && s.worker.place() == place);
        }
    }
}

/// What a fuzz case makes known is exactly the places at which it sampled the guest.
pub proof fn law_case_coverage<C, I, F>(
    steps: Seq<CaseStep<C, I, F>>,
    place: (Option<Seq<char>>, u64),
)
    requires
        is_run(steps),
        is_alone(steps),
    ensures
        steps.last().session_after.coverage@.contains(place)
            <==> steps[0].session.coverage@.contains(place) || was_sampled(
            steps,
            steps.len() as int,
            place,
        ),
{
    lemma_coverage(steps, steps.len() as int, place);
}

} // verus!
