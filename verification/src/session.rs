//! Fuzzing sessions: what the workers of a job share.
use vstd::prelude::*;
use vstd::pervasive::unreached;
use std::sync::Arc;
use crate::coverage::{clone_name, CoverageRecord, CoverageSet};
use crate::ept::PageState;
use crate::page::page_of;
use crate::rng::{xorshift, Rng};
use crate::stats::{no_statistics, Statistics};
use crate::worker::{Module, Worker};

verus! {

/// For how long the server's answer to a login is waited for, in microseconds.
pub const LOGIN_TIMEOUT: u64 = 50_000;

/// Messages that are exchanged with the server.
#[derive(Clone, Copy, PartialEq, Eq, Structural, Debug)]
pub enum ServerMessage {
    /// A core logs into the server, with the session and the core.
    Login(u64, u32),
    /// The server acknowledges a login, with the session and the core.
    LoginAck(u64, u32),
    ReportStatistics {
        fuzz_cases: u64,
        total_cycles: u64,
        vm_cycles: u64,
        reset_cycles: u64,
    },
    /// Any other message.
    Other,
}

/// What happens to a login.
#[derive(Clone, Copy, PartialEq, Eq, Structural, Debug)]
pub enum LoginEvent {
    /// The login starts.
    Start,
    /// No message arrived in time.
    Timeout,
    /// A message arrived.
    Message(ServerMessage),
}

/// How a login goes on.
#[derive(Clone, Copy, PartialEq, Eq, Structural, Debug)]
pub enum LoginAction {
    /// Send the message and wait for an answer for a number of microseconds.
    Send { message: ServerMessage, timeout: u64 },
    /// Go on waiting for an answer.
    Wait,
    /// The server has acknowledged the login.
    Complete,
}

/// The master that the workers of a session are forked from. It is shared from
/// the first worker on.
pub struct MasterVm<C> {
    pub(crate) own: Option<Worker<C>>,
    pub(crate) shared: Option<Arc<Worker<C>>>,
}

impl<C> MasterVm<C> {
    /// The master itself.
    pub open(crate) spec fn vm(self) -> Worker<C> {
        match self.own {
            Some(worker) => worker,
            None => *self.shared->0,
        }
    }

    /// No worker was forked from the master.
    pub open(crate) spec fn is_own(self) -> bool {
        self.own is Some
    }

    pub open(crate) spec fn wf(self) -> bool {
        &&& self.own is Some != self.shared is Some
        &&& self.vm().wf()
    }

    /// Shares the master with a worker.
    pub fn share(&mut self) -> (r: Arc<Worker<C>>)
        requires
            old(self).wf(),
        ensures
            final(self).wf(),
            !final(self).is_own(),
            final(self).vm() == old(self).vm(),
            *r == old(self).vm(),
    {
        match self.own.take() {
            Some(worker) => {
                self.shared = Some(Arc::new(worker));
            },
            None => {},
        }
        match &self.shared {
            Some(worker) => worker.clone(),
            None => unreached(),
        }
    }
}

/// A session for multiple workers to fuzz a shared job. `C` is the context that
/// the user controls, `I` and `F` are the user's callbacks.
pub struct FuzzSession<C, I, F> {
    /// Master VM state.
    pub master_vm: MasterVm<C>,
    /// Optional user-controlled global context.
    pub global_context: Option<Arc<C>>,
    /// Timeout for each fuzz case, in microseconds.
    pub timeout: Option<u64>,
    /// Callback to invoke before every fuzz case, for the fuzzer to inject
    /// information into the VM.
    pub inject: Option<I>,
    /// Callback to invoke when VM exits are hit to allow a user to handle VM
    /// exits to re-enter the VM.
    pub vmexit_filter: Option<F>,
    /// All observed coverage information.
    pub coverage: CoverageSet,
    /// Coverage which has yet to be reported to the server.
    pub pending_coverage: Vec<CoverageRecord>,
    /// Inputs which caused coverage, each of them once.
    pub inputs: Vec<Vec<u8>>,
    /// Global statistics for the fuzz cases.
    pub stats: Statistics,
    /// Number of workers.
    pub workers: u64,
    /// "Unique" session identifier.
    pub id: u64,
}

/// The bytes of each input.
pub open spec fn input_bytes(inputs: Seq<Vec<u8>>) -> Seq<Seq<u8>> {
    inputs.map_values(|input: Vec<u8>| input@)
}

/// The inputs with `input` added, unless it is among them.
pub open spec fn with_input(inputs: Seq<Seq<u8>>, input: Seq<u8>) -> Seq<Seq<u8>> {
    if inputs.contains(input) {
        inputs
    } else {
        inputs.push(input)
    }
}

/// The places that wait to be reported.
pub open spec fn pending_places(records: Seq<CoverageRecord>) -> Seq<(Option<Seq<char>>, u64)> {
    records.map_values(|r: CoverageRecord| r@)
}

/// What is to be told the server of statistics.
pub open spec fn statistics_message(stats: Statistics) -> ServerMessage {
    ServerMessage::ReportStatistics {
        fuzz_cases: stats.fuzz_cases,
        total_cycles: stats.total_cycles,
        vm_cycles: stats.vm_cycles,
        reset_cycles: stats.reset_cycles,
    }
}

/// How a login of `core_id` to the session `id` goes on. The login is sent until
/// the server acknowledges this session and this core.
pub open spec fn login_action(id: u64, core_id: u32, event: LoginEvent) -> LoginAction {
    match event {
        LoginEvent::Message(message) => if message == ServerMessage::LoginAck(id, core_id) {
            LoginAction::Complete
        } else {
            LoginAction::Wait
        },
        _ => LoginAction::Send {
            message: ServerMessage::Login(id, core_id),
            timeout: LOGIN_TIMEOUT,
        },
    }
}

/// `Arc::get_mut`, which gives access to the shared value if nothing else
/// shares it, and otherwise gives none. Whether something else shares it is left
/// open.
#[verifier::external_body]
fn unshared<C>(worker: &mut Arc<Worker<C>>) -> (r: Option<&mut Worker<C>>)
    ensures
        match r {
            Some(inner) => *inner == **old(worker) && **final(worker) == *final(inner),
            None => *final(worker) == *old(worker),
        },
{
    Arc::get_mut(worker)
}

/// Invokes a closure with access to a master, if there is access to it. Says
/// whether there is.
pub fn init_if_unshared<C, G: FnOnce(&mut Worker<C>)>(
    master: Option<&mut Worker<C>>,
    callback: G,
) -> (r: bool)
    requires
        master matches Some(m) ==> forall|w: &mut Worker<C>|
            *w == *m ==> #[trigger] callback.requires((w,)),
    ensures
        r == master is Some,
        master matches Some(m) ==> exists|w: &mut Worker<C>|
            {
                &&& *w == *m
                &&& #[trigger] callback.ensures((w,), ())
                &&& *final(m) == *final(w)
            },
{
    match master {
        Some(m) => {
            callback(m);
            true
        },
        None => false,
    }
}

impl<C, I, F> FuzzSession<C, I, F> {
    /// The master is well-formed, no input and no pending place occurs twice,
    /// and all places that are pending were observed.
    pub open spec fn wf(self) -> bool {
        &&& self.master_vm.wf()
        &&& self.coverage.wf()
        &&& input_bytes(self.inputs@).no_duplicates()
        &&& pending_places(self.pending_coverage@).no_duplicates()
        &&& forall|r: (Option<Seq<char>>, u64)| #[trigger]
            pending_places(self.pending_coverage@).contains(r) ==> self.coverage@.contains(r)
    }

    /// Nothing differs but what the workers report: coverage, inputs and
    /// statistics.
    pub open spec fn same_but_reports(self, other: Self) -> bool {
        &&& self.master_vm == other.master_vm
        &&& self.global_context == other.global_context
        &&& self.timeout == other.timeout
        &&& self.inject == other.inject
        &&& self.vmexit_filter == other.vmexit_filter
        &&& self.workers == other.workers
        &&& self.id == other.id
    }

    /// Nothing was set up in the session, and nothing has happened in it.
    pub open spec fn is_fresh(self, id: u64) -> bool {
        &&& self.id == id
        &&& self.global_context is None
        &&& self.timeout is None
        &&& self.inject is None
        &&& self.vmexit_filter is None
        &&& self.coverage@ == Set::<(Option<Seq<char>>, u64)>::empty()
        &&& self.pending_coverage@ == Seq::<CoverageRecord>::empty()
        &&& self.inputs@ == Seq::<Vec<u8>>::empty()
        &&& self.stats == no_statistics()
        &&& self.workers == 0
    }

    /// The session with a timeout.
    pub open spec fn with_timeout(self, timeout: u64) -> Self {
        FuzzSession { timeout: Some(timeout), ..self }
    }

    /// The session with an injection callback.
    pub open spec fn with_inject(self, inject: I) -> Self {
        FuzzSession { inject: Some(inject), ..self }
    }

    /// The session with an exit filter.
    pub open spec fn with_filter(self, filter: F) -> Self {
        FuzzSession { vmexit_filter: Some(filter), ..self }
    }

    /// `after` is the session with a context for its workers.
    pub open spec fn got_context(self, after: Self, context: C) -> bool {
        &&& after == FuzzSession { global_context: after.global_context, ..self }
        &&& after.global_context matches Some(shared) && *shared == context
    }

    /// A session over a master, in which nothing has happened.
    pub fn from_master(master: Worker<C>, id: u64) -> (r: Self)
        requires
            master.wf(),
        ensures
            r.wf(),
            r.master_vm.is_own(),
            r.master_vm.vm() == master,
            r.is_fresh(id),
    {
        FuzzSession {
            master_vm: MasterVm { own: Some(master), shared: None },
            coverage: CoverageSet::new(),
            pending_coverage: Vec::new(),
            stats: Statistics::default(),
            timeout: None,
            inject: None,
            vmexit_filter: None,
            inputs: Vec::new(),
            workers: 0,
            id,
            global_context: None,
        }
    }

    /// Invoke a closure with access to the initial memory and register states
    /// of the snapshot such that they can be mutated to create the basis for
    /// all fuzz cases.
    ///
    /// As long as no worker was forked, this succeeds. Otherwise it gives the
    /// session back as it was, in `Err`, if a worker still shares the master,
    /// which the contract leaves open.
    pub fn init_master_vm<G: FnOnce(&mut Worker<C>)>(self, callback: G) -> (r: Result<Self, Self>)
        requires
            self.wf(),
            forall|w: &mut Worker<C>|
                *w == self.master_vm.vm() ==> #[trigger] callback.requires((w,)),
        ensures
            match r {
                Ok(session) => {
                    &&& exists|w: &mut Worker<C>|
                        {
                            &&& *w == self.master_vm.vm()
                            &&& #[trigger] callback.ensures((w,), ())
                            &&& session.master_vm.vm() == *final(w)
                        }
                    &&& session.master_vm.is_own() == self.master_vm.is_own()
                    &&& session.master_vm.vm().wf() ==> session.wf()
                    &&& session == (FuzzSession { master_vm: session.master_vm, ..self })
                },
                Err(session) => session == self && !self.master_vm.is_own(),
            },
    {
        let mut session = self;
        match &mut session.master_vm.own {
            Some(master) => {
                callback(master);
                return Ok(session);
            },
            None => {},
        }
        let done: bool = match &mut session.master_vm.shared {
            Some(shared) => init_if_unshared(unshared(shared), callback),
            None => unreached(),
        };
        if done {
            Ok(session)
        } else {
            Err(session)
        }
    }

    /// Set the timeout for the VMs in microseconds.
    pub fn timeout(self, timeout: u64) -> (r: Self)
        ensures
            r == self.with_timeout(timeout),
    {
        FuzzSession { timeout: Some(timeout), ..self }
    }

    /// Set the injection callback routine. This will be invoked every time
    /// the VM is reset and a new fuzz case is about to begin.
    pub fn inject(self, inject: I) -> (r: Self)
        ensures
            r == self.with_inject(inject),
    {
        FuzzSession { inject: Some(inject), ..self }
    }

    /// Set the global context for the session.
    pub fn global_context(self, context: C) -> (r: Self)
        ensures
            self.got_context(r, context),
    {
        FuzzSession { global_context: Some(Arc::new(context)), ..self }
    }

    /// Set the VM exit filter for the workers. This will be invoked on an
    /// unhandled VM exit and gives an opportunity for the fuzzer to handle
    /// a VM exit to allow re-entry into the VM.
    pub fn vmexit_filter(self, vmexit_filter: F) -> (r: Self)
        ensures
            r == self.with_filter(vmexit_filter),
    {
        FuzzSession { vmexit_filter: Some(vmexit_filter), ..self }
    }

    /// `after` is `self` once the worker `r` was forked from its master, which the
    /// worker shares from then on.
    pub open spec fn handed_out(self, after: Self, r: Worker<C>, rng: Rng) -> bool {
        let master = self.master_vm.vm();
        &&& after == FuzzSession { workers: after.workers, master_vm: after.master_vm, ..self }
        &&& after.master_vm.vm() == master
        &&& !after.master_vm.is_own()
        &&& after.workers == if self.workers == u64::MAX {
            0
        } else {
            (self.workers + 1) as u64
        }
        &&& r.session == Some(self.id)
        &&& r.worker_id == self.workers
        &&& r.master matches Some(shared) && *shared == master
        &&& r.network_mem is None
        &&& r.global_context == self.global_context
        &&& r.vm.guest_regs == master.vm.guest_regs
        &&& r.vm.ept@ == Map::<u64, PageState>::empty()
        &&& r.vm.preemption_timer is None
        &&& r.rng == rng
        &&& r.stats == no_statistics()
        &&& r.sync == 0
        &&& r.module_list@ == Map::<u64, Module>::empty()
        &&& r.fuzz_input matches Some(input) && input@ == Seq::<u8>::empty()
        &&& forall|p: u64| #[trigger] r.page(p) == master.page(p)
    }

    /// Get a new worker for this fuzz session. The worker has to be logged into
    /// the server before.
    pub fn worker(&mut self, rng: Rng) -> (r: Worker<C>)
        requires
            old(self).wf(),
        ensures
            final(self).wf(),
            old(self).handed_out(*final(self), r, rng),
            r.wf(),
    {
        let worker_id: u64 = self.workers;
        self.workers = worker_id.wrapping_add(1);
        let context: Option<Arc<C>> = match &self.global_context {
            Some(context) => Some(context.clone()),
            None => None,
        };
        let master: Arc<Worker<C>> = self.master_vm.share();
        Worker::fork(self.id, context, master, worker_id, rng)
    }

    /// Update statistics to the server: gives the message to send.
    pub fn report_statistics(&self) -> (r: ServerMessage)
        ensures
            r == statistics_message(self.stats),
    {
        ServerMessage::ReportStatistics {
            fuzz_cases: self.stats.fuzz_cases,
            total_cycles: self.stats.total_cycles,
            vm_cycles: self.stats.vm_cycles,
            reset_cycles: self.stats.reset_cycles,
        }
    }

    /// Log in with the server: gives what to do next.
    pub fn login(&self, core_id: u32, event: LoginEvent) -> (r: LoginAction)
        ensures
            r == login_action(self.id, core_id, event),
    {
        match event {
            LoginEvent::Message(message) => match message {
                ServerMessage::LoginAck(session, core) => {
                    if session == self.id && core == core_id {
                        LoginAction::Complete
                    } else {
                        LoginAction::Wait
                    }
                },
                _ => LoginAction::Wait,
            },
            _ => LoginAction::Send {
                message: ServerMessage::Login(self.id, core_id),
                timeout: LOGIN_TIMEOUT,
            },
        }
    }

    /// What a report of coverage does, and whether the coverage is new.
    pub open spec fn reported(
        self,
        after: Self,
        place: (Option<Seq<char>>, u64),
        new: bool,
    ) -> bool {
        &&& after.same_but_reports(self)
        &&& after.inputs == self.inputs
        &&& after.stats == self.stats
        &&& new == !self.coverage@.contains(place)
        &&& after.coverage@ == self.coverage@.insert(place)
        &&& pending_places(after.pending_coverage@) == if new {
            pending_places(self.pending_coverage@).push(place)
        } else {
            pending_places(self.pending_coverage@)
        }
    }

    /// Report coverage. Says whether it is new, in which case it is queued to be
    /// reported to the server.
    pub fn report_coverage(&mut self, cr: &CoverageRecord) -> (r: bool)
        requires
            old(self).wf(),
        ensures
            final(self).wf(),
            old(self).reported(*final(self), cr@, r),
    {
        let ghost before = *self;
        let inserted: bool = self.coverage.insert(cr);
        if inserted {
            let record = CoverageRecord { module: clone_name(&cr.module), offset: cr.offset };
            self.pending_coverage.push(record);
            proof {
                let places = pending_places(before.pending_coverage@);
                assert(pending_places(self.pending_coverage@) =~= places.push(cr@));
                assert(!places.contains(cr@));
                lemma_push_distinct(places, cr@);
            }
            true
        } else {
            false
        }
    }

    /// Whether `input` is among the inputs which caused coverage.
    fn has_input(&self, input: &Vec<u8>) -> (r: bool)
        ensures
            r == input_bytes(self.inputs@).contains(input@),
    {
        let mut i: usize = 0;
        while i < self.inputs.len()
            invariant
                i <= self.inputs@.len(),
                forall|j: int| 0 <= j < i ==> (#[trigger] self.inputs@[j])@ != input@,
            decreases self.inputs@.len() - i,
        {
            if same_bytes(self.inputs[i].as_slice(), input.as_slice()) {
                assert(input_bytes(self.inputs@)[i as int] == input@);
                return true;
            }
            i = i + 1;
        }
        proof {
            assert forall|j: int| 0 <= j < input_bytes(self.inputs@).len() implies input_bytes(
                self.inputs@,
            )[j] != input@ by {
                assert(self.inputs@[j]@ != input@);
            }
        }
        false
    }

    /// What keeping an input does.
    pub open spec fn kept_input(self, after: Self, input: Seq<u8>) -> bool {
        &&& after.same_but_reports(self)
        &&& after.coverage == self.coverage
        &&& after.pending_coverage == self.pending_coverage
        &&& after.stats == self.stats
        &&& input_bytes(after.inputs@) == with_input(input_bytes(self.inputs@), input)
    }

    /// Keeps an input which caused coverage, unless it is kept already.
    pub fn keep_input(&mut self, input: &Vec<u8>)
        requires
            old(self).wf(),
        ensures
            final(self).wf(),
            old(self).kept_input(*final(self), input@),
    {
        if !self.has_input(input) {
            let ghost before = input_bytes(self.inputs@);
            let copy: Vec<u8> = input.clone();
            assert(copy@ =~= input@);
            self.inputs.push(copy);
            proof {
                assert(input_bytes(self.inputs@) =~= before.push(input@));
                lemma_push_distinct(before, input@);
            }
        }
    }
}

/// Whether two byte strings are the same.
fn same_bytes(a: &[u8], b: &[u8]) -> (r: bool)
    ensures
        r == (a@ == b@),
{
    if a.len() != b.len() {
        return false;
    }
    let mut i: usize = 0;
    while i < a.len()
        invariant
            i <= a@.len() == b@.len(),
            forall|j: int| 0 <= j < i ==> #[trigger] a@[j] == b@[j],
        decreases a@.len() - i,
    {
        if a[i] != b[i] {
            return false;
        }
        i = i + 1;
    }
    assert(a@ =~= b@);
    true
}

proof fn lemma_push_distinct<A>(s: Seq<A>, x: A)
    requires
        s.no_duplicates(),
        !s.contains(x),
    ensures
        s.push(x).no_duplicates(),
        forall|y: A| #[trigger] s.push(x).contains(y) ==> s.contains(y) || y == x,
{
    assert forall|i: int, j: int|
        0 <= i < s.push(x).len() && 0 <= j < s.push(x).len() && i != j implies s.push(x)[i]
        != s.push(x)[j] by {
        if i < s.len() {
            assert(s.contains(s[i]));
        }
        if j < s.len() {
            assert(s.contains(s[j]));
        }
    }
    assert forall|y: A| #[trigger] s.push(x).contains(y) implies s.contains(y) || y == x by {
        let i = choose|i: int| 0 <= i < s.push(x).len() && s.push(x)[i] == y;
        if i < s.len() {
            assert(s[i] == y);
        }
    }
}

impl<C> Worker<C> {
    /// What picking one of the inputs does, and gives.
    pub open spec fn picked(self, after: Self, inputs: Seq<Vec<u8>>, r: Option<Seq<u8>>) -> bool {
        &&& after == Worker { rng: after.rng, ..self }
        &&& match r {
            Some(input) => {
                &&& inputs.len() > 0
                &&& input == inputs[(self.rng.seed as usize) as int % inputs.len() as int]@
                &&& after.rng.seed == xorshift(self.rng.seed)
            },
            None => inputs.len() == 0 && after == self,
        }
    }

    /// Get a random existing input.
    pub fn rand_input<'a, I, F>(&mut self, session: &'a FuzzSession<C, I, F>) -> (r: Option<
        &'a [u8],
    >)
        requires
            old(self).session == Some(session.id),
        ensures
            old(self).picked(
                *final(self),
                session.inputs@,
                match r {
                    Some(input) => Some(input@),
                    None => None,
                },
            ),
    {
        let inputs: usize = session.inputs.len();
        if inputs > 0 {
            let pick: usize = self.rng.rand() % inputs;
            Some(session.inputs[pick].as_slice())
        } else {
            None
        }
    }
}

/// A worker that a session handed out: the session before and after, and the
/// random number generator that the worker got.
pub struct HandOut<C, I, F> {
    pub session: FuzzSession<C, I, F>,
    pub session_after: FuzzSession<C, I, F>,
    pub worker: Worker<C>,
    pub rng: Rng,
}

/// The workers that a session hands out, from its first one on. In between,
/// whatever is done to the session, it stays the same session and counts no
/// worker.
pub open spec fn are_workers_of<C, I, F>(id: u64, all: Seq<HandOut<C, I, F>>) -> bool {
    &&& all.len() > 0 ==> all[0].session.workers == 0
    &&& forall|k: int|
        0 <= k < all.len() ==> {
            let h = #[trigger] all[k];
            h.session.id == id && h.session.handed_out(h.session_after, h.worker, h.rng)
        }
    &&& forall|k: int|
        0 < k < all.len() ==> (#[trigger] all[k]).session.workers == all[k
            - 1].session_after.workers
}

proof fn lemma_worker_id<C, I, F>(id: u64, all: Seq<HandOut<C, I, F>>, k: int)
    requires
        are_workers_of(id, all),
        all.len() <= 0x1_0000_0000_0000_0000,
        0 <= k < all.len(),
    ensures
        all[k].session.workers == k,
    decreases k,
{
    if k > 0 {
        lemma_worker_id(id, all, k - 1);
        assert(all[k].session.workers == all[k - 1].session_after.workers);
    }
}

/// The workers of a session are numbered from zero in the order in which they are
/// handed out, as long as there are no more workers than identifiers. So no two of
/// them have the same identifier, and exactly the first one has the identifier
/// zero. All of them belong to the session, and start with the registers of its
/// master.
#[verifier::spinoff_prover]
#[verifier::rlimit(40)]
pub proof fn law_worker_ids<C, I, F>(id: u64, all: Seq<HandOut<C, I, F>>)
    requires
        are_workers_of(id, all),
        all.len() <= 0x1_0000_0000_0000_0000,
    ensures
        forall|k: int| 0 <= k < all.len() ==> (#[trigger] all[k]).worker.worker_id == k,
        forall|k: int, l: int|
            0 <= k < l < all.len() ==> (#[trigger] all[k]).worker.worker_id != (
            #[trigger] all[l]).worker.worker_id,
        forall|k: int|
            0 <= k < all.len() ==> ((#[trigger] all[k]).worker.worker_id == 0 <==> k == 0),
        forall|k: int|
            0 <= k < all.len() ==> {
                let h = #[trigger] all[k];
                &&& h.worker.session == Some(id)
                &&& h.worker.vm.guest_regs == h.session.master_vm.vm().vm.guest_regs
            },
        0 < all.len() < 0x1_0000_0000_0000_0000 ==> all.last().session_after.workers == all.len(),
{
    assert forall|k: int| 0 <= k < all.len() implies (#[trigger] all[k]).worker.worker_id == k by {
        lemma_worker_id(id, all, k);
    }
    if all.len() > 0 {
        lemma_worker_id(id, all, all.len() - 1);
    }
}

/// Coverage is new once: what was reported is not new when it is reported again,
/// whatever else was reported in between.
pub proof fn law_coverage_is_new_once(
    reported: Set<(Option<Seq<char>>, u64)>,
    place: (Option<Seq<char>>, u64),
    others: Seq<(Option<Seq<char>>, u64)>,
)
    ensures
        with_places(reported.insert(place), others).contains(place),
    decreases others.len(),
{
    if others.len() > 0 {
        law_coverage_is_new_once(reported, place, others.drop_last());
    }
}

/// The places observed once `places` were reported, too.
pub open spec fn with_places(
    reported: Set<(Option<Seq<char>>, u64)>,
    places: Seq<(Option<Seq<char>>, u64)>,
) -> Set<(Option<Seq<char>>, u64)>
    decreases places.len(),
{
    if places.len() == 0 {
        reported
    } else {
        with_places(reported, places.drop_last()).insert(places.last())
    }
}

/// Keeping an input again changes nothing, and keeping an input keeps the others.
pub proof fn law_input_is_kept_once(inputs: Seq<Seq<u8>>, input: Seq<u8>, other: Seq<u8>)
    ensures
        with_input(inputs, input).contains(input),
        with_input(with_input(inputs, input), input) == with_input(inputs, input),
        inputs.contains(other) ==> with_input(inputs, input).contains(other),
{
    if !inputs.contains(input) {
        let more = inputs.push(input);
        assert(more[inputs.len() as int] == input);
        if inputs.contains(other) {
            let i = choose|i: int| 0 <= i < inputs.len() && inputs[i] == other;
            assert(more[i] == other);
        }
    }
}

/// A login is over if and only if the server has acknowledged this session and
/// this core, and as long as nothing arrives it is sent again.
pub proof fn law_login(id: u64, core_id: u32, event: LoginEvent)
    ensures
        login_action(id, core_id, event) is Complete <==> event == LoginEvent::Message(
            ServerMessage::LoginAck(id, core_id),
        ),
        event is Timeout ==> login_action(id, core_id, event) == login_action(
            id,
            core_id,
            LoginEvent::Start,
        ),
{
}

/// One of the inputs is picked if and only if there is one. Each one can be picked:
/// the one number `k` is by the random number `k`. To pick one takes one random
/// number and nothing else.
pub proof fn law_picks_an_input<C>(
    worker: &Worker<C>,
    after: &Worker<C>,
    inputs: Seq<Vec<u8>>,
    r: Option<Seq<u8>>,
)
    requires
        worker.picked(*after, inputs, r),
        inputs.len() <= usize::MAX,
    ensures
        r is Some <==> inputs.len() > 0,
        r matches Some(input) ==> exists|k: int| 0 <= k < inputs.len() && #[trigger] inputs[k]@ == input,
        worker.rng.seed < inputs.len() ==> r == Some(inputs[worker.rng.seed as int]@),
        inputs.len() > 0 ==> after.rng.seed == xorshift(worker.rng.seed),
        inputs.len() == 0 ==> after.rng == worker.rng,
        after.vm == worker.vm && after.fuzz_input == worker.fuzz_input && after.stats == worker.stats,
{
    if inputs.len() > 0 {
        let k = (worker.rng.seed as usize) as int % inputs.len() as int;
        assert(inputs[k]@ == r->0);
        if worker.rng.seed < inputs.len() {
            vstd::arithmetic::div_mod::lemma_small_mod(
                worker.rng.seed as nat,
                inputs.len(),
            );
        }
    }
}

/// Of two reports in a row, the second one is new if and only if it is of another
/// place than the first one and its place was not known before. What is new, and
/// only that, waits to be reported, in order. Reports touch neither inputs nor
/// statistics.
pub proof fn law_reports_in_a_row<C, I, F>(
    start: FuzzSession<C, I, F>,
    mid: FuzzSession<C, I, F>,
    end: FuzzSession<C, I, F>,
    a: (Option<Seq<char>>, u64),
    b: (Option<Seq<char>>, u64),
    a_new: bool,
    b_new: bool,
)
    requires
        start.reported(mid, a, a_new),
        mid.reported(end, b, b_new),
    ensures
        a_new <==> !start.coverage@.contains(a),
        b_new <==> b != a && !start.coverage@.contains(b),
        end.coverage@.contains(a) && end.coverage@.contains(b),
        forall|c: (Option<Seq<char>>, u64)|
            c != a && c != b ==> (#[trigger] end.coverage@.contains(c)
                <==> start.coverage@.contains(c)),
        pending_places(end.pending_coverage@) == pending_places(start.pending_coverage@) + (if a_new {
            seq![a]
        } else {
            Seq::empty()
        }) + (if b_new {
            seq![b]
        } else {
            Seq::empty()
        }),
        end.inputs == start.inputs,
        end.stats == start.stats,
        end.master_vm == start.master_vm,
{
    assert(pending_places(end.pending_coverage@) =~= pending_places(start.pending_coverage@) + (
    if a_new {
        seq![a]
    } else {
        Seq::empty()
    }) + (if b_new {
        seq![b]
    } else {
        Seq::empty()
    }));
}

/// An input that is kept is the last one if it is new, and changes nothing if it is
/// not.
pub proof fn law_kept_input<C, I, F>(
    before: FuzzSession<C, I, F>,
    after: FuzzSession<C, I, F>,
    input: Seq<u8>,
)
    requires
        before.kept_input(after, input),
    ensures
        ({
            let old_inputs = input_bytes(before.inputs@);
            let inputs = input_bytes(after.inputs@);
            &&& inputs.contains(input)
            &&& old_inputs.is_prefix_of(inputs)
            &&& old_inputs.contains(input) ==> inputs.len() == old_inputs.len()
            &&& !old_inputs.contains(input) ==> inputs.len() == old_inputs.len() + 1
                && inputs.last() == input
        }),
        after.coverage == before.coverage,
        after.pending_coverage == before.pending_coverage,
        after.stats == before.stats,
{
    let old_inputs = input_bytes(before.inputs@);
    law_input_is_kept_once(old_inputs, input, input);
}

/// A login is sent when it starts and when no answer came in time, with the session
/// and the core, and an answer is waited for for 50 milliseconds. Any message but the
/// acknowledgement is ignored.
pub proof fn law_login_is_sent(id: u64, core_id: u32, message: ServerMessage)
    ensures
        login_action(id, core_id, LoginEvent::Start) == (LoginAction::Send {
            message: ServerMessage::Login(id, core_id),
            timeout: 50_000,
        }),
        login_action(id, core_id, LoginEvent::Timeout) == (LoginAction::Send {
            message: ServerMessage::Login(id, core_id),
            timeout: 50_000,
        }),
        login_action(id, core_id, LoginEvent::Message(message)) == if message
            == ServerMessage::LoginAck(id, core_id) {
            LoginAction::Complete
        } else {
            LoginAction::Wait
        },
{
}

/// The server is told each counter under its own name.
pub proof fn law_statistics_message(stats: Statistics)
    ensures
        statistics_message(stats) matches ServerMessage::ReportStatistics {
            fuzz_cases,
            total_cycles,
            vm_cycles,
            reset_cycles,
        } && fuzz_cases == stats.fuzz_cases && total_cycles == stats.total_cycles && vm_cycles
            == stats.vm_cycles && reset_cycles == stats.reset_cycles,
{
}

/// A worker that a session hands out is a fresh copy of the master: it has the
/// registers, the floating-point state and every byte of the master, the context of
/// the session, no module, an empty input, and nothing counted. The session keeps
/// its master and its settings.
pub proof fn law_hand_out<C, I, F>(h: HandOut<C, I, F>, addr: u64)
    requires
        h.session.handed_out(h.session_after, h.worker, h.rng),
    ensures
        ({
            let master = h.session.master_vm.vm();
            &&& h.worker.vm.guest_regs@ == master.vm.guest_regs@
            &&& h.worker.vm.guest_regs.fxsave == master.vm.guest_regs.fxsave
            &&& h.worker.mem(addr) == master.mem(addr)
            &&& h.session_after.master_vm.vm() == master
            &&& !h.session_after.master_vm.is_own()
        }),
        h.worker.global_context == h.session.global_context,
        h.worker.fuzz_input matches Some(input) && input@.len() == 0,
        forall|b: u64| !(#[trigger] h.worker.module_list@.contains_key(b)),
        forall|p: u64| !(#[trigger] h.worker.vm.ept@.contains_key(p)),
        h.worker.stats.fuzz_cases == 0 && h.worker.stats.vmexits == 0 && h.worker.stats.vm_cycles == 0
            && h.worker.stats.total_cycles == 0 && h.worker.stats.reset_cycles == 0,
        h.worker.sync == 0,
        h.worker.rng == h.rng,
        h.session_after.timeout == h.session.timeout,
        h.session_after.inject == h.session.inject,
        h.session_after.vmexit_filter == h.session.vmexit_filter,
        h.session_after.stats == h.session.stats,
        h.session_after.inputs == h.session.inputs,
        h.session_after.coverage == h.session.coverage,
{
    assert(h.worker.page(page_of(addr)) == h.session.master_vm.vm().page(page_of(addr)));
}

/// Each setting is taken as it is given, the last one that is given counts, and it
/// leaves the other settings, the master and all that was found alone.
pub proof fn law_settings<C, I, F>(
    session: FuzzSession<C, I, F>,
    timeout: u64,
    other: u64,
    inject: I,
    filter: F,
)
    ensures
        session.with_timeout(timeout).timeout == Some(timeout),
        session.with_timeout(other).with_timeout(timeout) == session.with_timeout(timeout),
        session.with_inject(inject).inject == Some(inject),
        session.with_filter(filter).vmexit_filter == Some(filter),
        ({
            let all = session.with_timeout(timeout).with_inject(inject).with_filter(filter);
            &&& all == session.with_filter(filter).with_inject(inject).with_timeout(timeout)
            &&& all.timeout == Some(timeout) && all.inject == Some(inject)
            &&& all.vmexit_filter == Some(filter)
            &&& all.master_vm == session.master_vm && all.global_context == session.global_context
            &&& all.stats == session.stats && all.workers == session.workers && all.id == session.id
            &&& all.inputs == session.inputs && all.coverage == session.coverage
            &&& all.pending_coverage == session.pending_coverage
        }),
{
}

/// A new session knows no place and no input, has nothing to report, has no worker,
/// and has counted nothing.
pub proof fn law_fresh_session<C, I, F>(session: FuzzSession<C, I, F>, id: u64)
    requires
        session.is_fresh(id),
    ensures
        session.id == id,
        session.timeout is None && session.inject is None && session.vmexit_filter is None,
        session.global_context is None,
        forall|place: (Option<Seq<char>>, u64)| !(#[trigger] session.coverage@.contains(place)),
        session.pending_coverage@.len() == 0,
        session.inputs@.len() == 0,
        session.workers == 0,
        session.stats.fuzz_cases == 0 && session.stats.vmexits == 0 && session.stats.vm_cycles == 0
            && session.stats.total_cycles == 0 && session.stats.reset_cycles == 0,
{
}

/// A context that a session is given is the one that its workers get, and the last
/// one that is given counts. It leaves the settings and the master alone.
pub proof fn law_context<C, I, F>(
    session: FuzzSession<C, I, F>,
    mid: FuzzSession<C, I, F>,
    end: FuzzSession<C, I, F>,
    first: C,
    second: C,
    h: HandOut<C, I, F>,
)
    requires
        session.got_context(mid, first),
        mid.got_context(end, second),
        h.session == end,
        h.session.handed_out(h.session_after, h.worker, h.rng),
    ensures
        h.worker.global_context matches Some(shared) && *shared == second,
        end.timeout == session.timeout && end.inject == session.inject,
        end.vmexit_filter == session.vmexit_filter && end.master_vm == session.master_vm,
        end.stats == session.stats && end.inputs == session.inputs,
{
}

} // verus!
