//! Workers: virtual machines over copy-on-write memory.
use vstd::prelude::*;
use vstd::slice::slice_to_vec;
use std::sync::Arc;
use crate::addr_map::AddrMap;
use crate::ept::{copy_bytes, overwritten, page_state_wf, touched, EptFlags, PageState};
use crate::page::{
    covers, distance, is_page, page_addr, page_of, page_offset, reaches, wrap, PhysAddr,
};
use crate::regs::{Register, FXSAVE_SIZE};
use crate::rng::Rng;
use crate::snapshot::NetBacking;
use crate::stats::{no_statistics, Statistics};
use crate::vm::Vm;

verus! {

/// A module of the guest.
pub struct Module {
    /// The last address of the module.
    pub end: u64,
    pub name: Arc<String>,
}

/// A virtual machine that runs fuzz cases, or the master that it is forked from.
pub struct Worker<C> {
    /// Master worker that we are forked from.
    pub master: Option<Arc<Worker<C>>>,
    /// Snapshot memory for the VM.
    pub network_mem: Option<Arc<NetBacking>>,
    /// The fuzz session this worker belongs to, by its identifier.
    pub session: Option<u64>,
    /// Optional user-controlled global context.
    pub global_context: Option<Arc<C>>,
    /// Raw virtual machine that this worker uses.
    pub vm: Vm,
    /// Random number generator seed.
    pub rng: Rng,
    /// Fuzz input for the fuzz case.
    pub fuzz_input: Option<Vec<u8>>,
    /// Local worker statistics, to be merged into the fuzz session on an
    /// interval.
    pub stats: Statistics,
    /// Time of the next statistic sync.
    pub sync: u64,
    /// Unique worker identifier.
    pub worker_id: u64,
    /// The guest's modules, by their base addresses.
    pub module_list: AddrMap<Module>,
}

/// What a copy of `page` holds once the first `len` bytes of `data` were
/// written to the run of addresses that starts at `base`.
pub open spec fn written(state: PageState, page: u64, base: u64, len: int, data: Seq<u8>) -> PageState {
    PageState {
        copy: Some(
            Seq::new(
                4096,
                |j: int|
                    {
                        let addr = (page + j) as u64;
                        if covers(base, len, addr) {
                            data[distance(base, addr)]
                        } else {
                            state.copy->0[j]
                        }
                    },
            ),
        ),
        ..state
    }
}

impl<C> Worker<C> {
    /// What the guest sees of `page`: its own copy, or else what its master
    /// sees, or else what the snapshot holds.
    pub open spec fn page(self, page: u64) -> Option<Seq<u8>>
        decreases self,
    {
        match self.vm.ept.copy_at(page) {
            Some(copy) => Some(copy),
            None => match self.master {
                Some(master) => master.page(page),
                None => match self.network_mem {
                    Some(backing) => backing.page(page),
                    None => None,
                },
            },
        }
    }

    /// What `page` holds as long as the guest has no copy of its own.
    pub open spec fn original(self, page: u64) -> Option<Seq<u8>> {
        match self.master {
            Some(master) => master.page(page),
            None => match self.network_mem {
                Some(backing) => backing.page(page),
                None => None,
            },
        }
    }

    /// The snapshot that the worker descends from holds `page`, if at all, at a
    /// page of its image.
    pub open spec fn is_aligned(self, page: u64) -> bool
        decreases self,
    {
        match self.master {
            Some(master) => master.is_aligned(page),
            None => match self.network_mem {
                Some(backing) => backing.is_aligned(page),
                None => true,
            },
        }
    }

    /// A mapped page stands for a page that exists, and a copy that is not dirty
    /// still holds what it was copied from.
    pub open spec fn mapping_wf(self, page: u64) -> bool {
        &&& self.original(page) is Some
        &&& self.is_aligned(page)
        &&& self.vm.ept@[page].copy is Some && !self.vm.ept@[page].dirty ==> self.vm.ept@[page].copy
            == self.original(page)
    }

    pub open spec fn wf(self) -> bool
        decreases self,
    {
        &&& self.vm.ept.wf()
        &&& self.module_list.wf()
        &&& (match self.master {
            Some(master) => master.wf(),
            None => true,
        })
        &&& (match self.network_mem {
            Some(backing) => backing.wf(),
            None => true,
        })
        &&& forall|p: u64| #[trigger] self.vm.ept@.contains_key(p) ==> self.mapping_wf(p)
    }

    /// The byte that the guest sees at `addr`.
    pub open spec fn mem(self, addr: u64) -> Option<u8> {
        match self.page(page_of(addr)) {
            Some(bytes) => Some(bytes[(addr % 4096) as int]),
            None => None,
        }
    }

    /// How many of the `len` bytes from `base` on there are before the first one
    /// that is missing.
    pub open spec fn present_len(self, base: u64, len: nat) -> nat
        decreases len,
    {
        if len == 0 {
            0
        } else {
            let before = self.present_len(base, (len - 1) as nat);
            if before == len - 1 && self.mem(wrap(base, len - 1)) is Some {
                len
            } else {
                before
            }
        }
    }

    /// All pages that an access to `len` bytes from `base` on gets to look for
    /// are well placed in the snapshot.
    pub open spec fn span_aligned(self, base: u64, len: nat) -> bool {
        forall|i: int|
            0 <= i < len && i <= self.present_len(base, len) ==> self.is_aligned(
                page_of(#[trigger] wrap(base, i)),
            )
    }

    /// Nothing but the mapping of memory differs.
    pub open spec fn same_but_ept(self, other: Self) -> bool {
        &&& self.master == other.master
        &&& self.network_mem == other.network_mem
        &&& self.session == other.session
        &&& self.global_context == other.global_context
        &&& self.vm.guest_regs == other.vm.guest_regs
        &&& self.vm.preemption_timer == other.vm.preemption_timer
        &&& self.rng == other.rng
        &&& self.fuzz_input == other.fuzz_input
        &&& self.stats == other.stats
        &&& self.sync == other.sync
        &&& self.worker_id == other.worker_id
        &&& self.module_list == other.module_list
    }

    /// The mapping once the first `len` bytes from `base` on were read.
    pub open spec fn ept_after_read(self, base: u64, len: int) -> Map<u64, PageState> {
        Map::new(
            |p: u64| self.vm.ept@.contains_key(p) || reaches(base, len, p),
            |p: u64|
                if reaches(base, len, p) {
                    touched(self.vm.ept.at(p), self.original(p)->0, false)
                } else {
                    self.vm.ept@[p]
                },
        )
    }

    /// The mapping once the first `len` bytes of `data` were written from `base`
    /// on.
    pub open spec fn ept_after_write(self, base: u64, len: int, data: Seq<u8>) -> Map<
        u64,
        PageState,
    > {
        Map::new(
            |p: u64| self.vm.ept@.contains_key(p) || reaches(base, len, p),
            |p: u64|
                if reaches(base, len, p) {
                    written(
                        touched(self.vm.ept.at(p), self.original(p)->0, true),
                        p,
                        base,
                        len,
                        data,
                    )
                } else {
                    self.vm.ept@[p]
                },
        )
    }

    /// A page that the guest sees is a page long.
    pub proof fn lemma_page_len(&self, page: u64)
        requires
            self.wf(),
        ensures
            self.page(page) matches Some(s) ==> s.len() == 4096,
            self.original(page) matches Some(s) ==> s.len() == 4096,
        decreases self,
    {
        match self.master {
            Some(master) => {
                master.lemma_page_len(page);
            },
            None => {},
        }
        if self.vm.ept@.contains_key(page) {
            assert(self.mapping_wf(page));
        }
    }

    /// There is a page if and only if there is one to take a copy of.
    pub proof fn lemma_page_present(&self, page: u64)
        requires
            self.wf(),
        ensures
            self.page(page) is Some <==> self.original(page) is Some,
    {
        if self.vm.ept@.contains_key(page) {
            assert(self.mapping_wf(page));
        }
    }

    /// Whether the snapshot that the worker descends from holds `page`, if at
    /// all, at a page of its image.
    pub fn page_aligned(&self, page: u64) -> (r: bool)
        requires
            self.wf(),
        ensures
            r == self.is_aligned(page),
        decreases self,
    {
        match &self.master {
            Some(master) => master.page_aligned(page),
            None => match &self.network_mem {
                Some(backing) => backing.aligned(page),
                None => true,
            },
        }
    }

    /// Attempts to get the page at `gpaddr`.
    pub fn get_page(&self, gpaddr: PhysAddr) -> (r: Option<&[u8]>)
        requires
            self.wf(),
            is_page(gpaddr.0),
            self.is_aligned(gpaddr.0),
        ensures
            match r {
                Some(s) => self.page(gpaddr.0) == Some(s@) && s@.len() == 4096,
                None => self.page(gpaddr.0) is None,
            },
        decreases self,
    {
        proof {
            self.lemma_page_len(gpaddr.0);
        }
        match self.vm.ept.copy_of(gpaddr.0) {
            Some(copy) => Some(copy),
            None => match &self.master {
                Some(master) => master.get_page(gpaddr),
                None => match &self.network_mem {
                    Some(backing) => backing.get(gpaddr.0),
                    None => None,
                },
            },
        }
    }

    /// Attempts to get what the page at `gpaddr` holds as long as the guest has
    /// no copy of its own.
    fn original_page(&self, gpaddr: PhysAddr) -> (r: Option<&[u8]>)
        requires
            self.wf(),
            is_page(gpaddr.0),
            self.is_aligned(gpaddr.0),
        ensures
            match r {
                Some(s) => self.original(gpaddr.0) == Some(s@) && s@.len() == 4096,
                None => self.original(gpaddr.0) is None,
            },
    {
        proof {
            self.lemma_page_len(gpaddr.0);
        }
        match &self.master {
            Some(master) => master.get_page(gpaddr),
            None => match &self.network_mem {
                Some(backing) => backing.get(gpaddr.0),
                None => None,
            },
        }
    }

    /// What asking for the page of a guest physical address does, and gives.
    pub open spec fn translated(
        self,
        after: Self,
        gpaddr: PhysAddr,
        write: bool,
        r: Option<u64>,
    ) -> bool {
        let page = page_of(gpaddr.0);
        &&& after.same_but_ept(self)
        &&& forall|p: u64| #[trigger] after.page(p) == self.page(p)
        &&& match r {
            Some(offset) => {
                &&& self.original(page) is Some
                &&& offset == gpaddr.0 % 4096
                &&& after.vm.ept@ == self.vm.ept@.insert(
                    page,
                    touched(self.vm.ept.at(page), self.original(page)->0, write),
                )
            },
            None => {
                &&& self.original(page) is None
                &&& after == self
            },
        }
    }

    /// Maps the page of a guest physical address, so that it can be read, or
    /// written if `write` is set. Memory that is written is copied first, where
    /// the guest has no copy of its own yet.
    ///
    /// Gives the place of `gpaddr` on its page: a request for `0x13371337` gives
    /// `0x337`. If the address is not valid for the guest, this returns `None`.
    pub fn translate(&mut self, gpaddr: PhysAddr, write: bool) -> (r: Option<u64>)
        requires
            old(self).wf(),
            old(self).is_aligned(page_of(gpaddr.0)),
        ensures
            final(self).wf(),
            old(self).translated(*final(self), gpaddr, write, r),
    {
        let page: u64 = page_addr(gpaddr.0);
        let offset: u64 = page_offset(gpaddr.0);
        let ghost before = *self;
        proof {
            self.lemma_page_len(page);
            if self.vm.ept@.contains_key(page) {
                assert(self.mapping_wf(page));
            }
        }
        let translation: Option<bool> = self.vm.ept.translate_dirty(page, write);
        match translation {
            Some(writable) => {
                if (write && writable) || !write {
                    proof {
                        assert(self.vm.ept@ =~= before.vm.ept@.insert(
                            page,
                            touched(before.vm.ept.at(page), before.original(page)->0, write),
                        ));
                        self.lemma_touched(before, page, write);
                    }
                    return Some(offset);
                }
            },
            None => {},
        }
        proof {
            if translation is None {
                assert(*self == before);
            }
            assert forall|p: u64| #[trigger] self.vm.ept@.contains_key(p) implies self.mapping_wf(
                p,
            ) by {
                assert(before.vm.ept@.contains_key(p));
                assert(before.mapping_wf(p));
            }
        }
        let copy: Option<Vec<u8>>;
        match self.original_page(PhysAddr(page)) {
            Some(bytes) => {
                copy = if write {
                    Some(slice_to_vec(bytes))
                } else {
                    None
                };
            },
            None => {
                return None;
            },
        }
        let flags = EptFlags {
            read: true,
            write,
            execute: true,
            user_execute: true,
            write_back: translation.is_none(),
        };
        self.vm.ept.map_page(page, copy, flags, write);
        proof {
            assert(self.vm.ept@ =~= before.vm.ept@.insert(
                page,
                touched(before.vm.ept.at(page), before.original(page)->0, write),
            ));
            self.lemma_touched(before, page, write);
        }
        Some(offset)
    }

    /// Asking for a page keeps what the guest sees.
    proof fn lemma_touched(self, before: Self, page: u64, write: bool)
        requires
            before.wf(),
            before.is_aligned(page),
            before.original(page) is Some,
            self.vm.ept.wf(),
            self.same_but_ept(before),
            self.vm.ept@ == before.vm.ept@.insert(
                page,
                touched(before.vm.ept.at(page), before.original(page)->0, write),
            ),
        ensures
            self.wf(),
            forall|p: u64| #[trigger] self.page(p) == before.page(p),
    {
        assert forall|p: u64| #[trigger] self.vm.ept@.contains_key(p) implies self.mapping_wf(p) by {
            if before.vm.ept@.contains_key(p) {
                assert(before.mapping_wf(p));
            }
        }
    }

    /// Create a new empty VM from snapshot memory.
    pub fn from_net(memory: Arc<NetBacking>, rng: Rng) -> (r: Self)
        requires
            memory.wf(),
        ensures
            r.wf(),
            r.master is None,
            r.network_mem == Some(memory),
            r.vm.ept@ == Map::<u64, PageState>::empty(),
            forall|x: Register| #[trigger] r.vm.guest_regs@[x] == 0,
            forall|i: int|
                0 <= i < FXSAVE_SIZE ==> #[trigger] r.vm.guest_regs.fxsave.bytes@[i] == 0,
            r.vm.preemption_timer is None,
            r.rng == rng,
            r.stats == no_statistics(),
            r.sync == 0,
            r.worker_id == u64::MAX,
            r.module_list@ == Map::<u64, Module>::empty(),
            r.fuzz_input is None,
            r.session is None,
            r.global_context is None,
            forall|p: u64| #[trigger] r.page(p) == memory.page(p),
    {
        Worker {
            master: None,
            network_mem: Some(memory),
            vm: Vm::new(),
            rng,
            stats: Statistics::default(),
            sync: 0,
            worker_id: u64::MAX,
            module_list: AddrMap::new(),
            fuzz_input: None,
            session: None,
            global_context: None,
        }
    }

    /// Create a new VM forked from a master, for the session with the identifier
    /// `session`.
    pub fn fork(
        session: u64,
        global_context: Option<Arc<C>>,
        master: Arc<Worker<C>>,
        worker_id: u64,
        rng: Rng,
    ) -> (r: Self)
        requires
            master.wf(),
        ensures
            r.wf(),
            r.master == Some(master),
            r.network_mem is None,
            r.vm.ept@ == Map::<u64, PageState>::empty(),
            r.vm.guest_regs == master.vm.guest_regs,
            r.vm.preemption_timer is None,
            r.rng == rng,
            r.stats == no_statistics(),
            r.sync == 0,
            r.session == Some(session),
            r.global_context == global_context,
            r.worker_id == worker_id,
            r.module_list@ == Map::<u64, Module>::empty(),
            r.fuzz_input matches Some(input) && input@ == Seq::<u8>::empty(),
            forall|p: u64| #[trigger] r.page(p) == master.page(p),
    {
        let mut vm = Vm::new();
        vm.guest_regs = master.vm.guest_regs;
        Worker {
            master: Some(master),
            network_mem: None,
            vm,
            rng,
            stats: Statistics::default(),
            sync: 0,
            session: Some(session),
            global_context,
            worker_id,
            module_list: AddrMap::new(),
            fuzz_input: Some(Vec::new()),
        }
    }

    /// A mapped page once it was restored from `original`.
    pub open spec fn restored(state: PageState, original: Seq<u8>) -> PageState {
        PageState {
            copy: if state.dirty && state.copy is Some {
                Some(original)
            } else {
                state.copy
            },
            dirty: false,
            ..state
        }
    }

    /// Resets memory to its original state: every page that was written since
    /// gets back what the master holds.
    pub fn restore_memory(&mut self)
        requires
            old(self).wf(),
            old(self).master is Some,
        ensures
            final(self).wf(),
            final(self).same_but_ept(*old(self)),
            final(self).vm.ept@ == Map::new(
                |p: u64| old(self).vm.ept@.contains_key(p),
                |p: u64| Self::restored(old(self).vm.ept@[p], old(self).original(p)->0),
            ),
            forall|p: u64| #[trigger] final(self).page(p) == old(self).master->0.page(p),
    {
        let ghost start = *self;
        let count: usize = self.vm.ept.pages.keys.len();
        let mut i: usize = 0;
        while i < count
            invariant
                *old(self) == start,
                start.wf(),
                start.master is Some,
                self.same_but_ept(start),
                self.vm.ept.pages.wf(),
                self.vm.ept.pages.keys@ == start.vm.ept.pages.keys@,
                i <= count == self.vm.ept.pages.keys@.len(),
                forall|j: int|
                    0 <= j < i ==> (#[trigger] self.vm.ept.pages.vals@[j])@ == Self::restored(
                        start.vm.ept.pages.vals@[j]@,
                        start.original(start.vm.ept.pages.keys@[j])->0,
                    ),
                forall|j: int|
                    i <= j < count ==> #[trigger] self.vm.ept.pages.vals@[j]
                        == start.vm.ept.pages.vals@[j],
            decreases count - i,
        {
            let page: u64 = self.vm.ept.pages.keys[i];
            proof {
                start.vm.ept.pages.lemma_at(i as int);
                assert(start.vm.ept@.contains_key(page));
                assert(start.mapping_wf(page));
                start.lemma_page_len(page);
            }
            if self.vm.ept.pages.vals[i].dirty {
                match &self.master {
                    Some(master) => match master.get_page(PhysAddr(page)) {
                        Some(bytes) => {
                            let entry = &mut self.vm.ept.pages.vals[i];
                            entry.dirty = false;
                            match &mut entry.copy {
                                Some(copy) => {
                                    copy_bytes(copy.as_mut_slice(), 0, bytes, 0, 4096);
                                },
                                None => {},
                            }
                            proof {
                                let copy = start.vm.ept.pages.vals@[i as int]@.copy;
                                assert(copy is Some ==> overwritten(copy->0, 0, bytes@, 0, 4096)
                                    =~= bytes@);
                            }
                        },
                        None => {},
                    },
                    None => {},
                }
            }
            i = i + 1;
        }
        proof {
            let goal = Map::new(
                |p: u64| start.vm.ept@.contains_key(p),
                |p: u64| Self::restored(start.vm.ept@[p], start.original(p)->0),
            );
            assert forall|p: u64| #[trigger] start.vm.ept@.contains_key(p) implies self.vm.ept@[p]
                == goal[p] && start.mapping_wf(p) by {
                let j = start.vm.ept.pages.keys@.index_of(p);
                start.vm.ept.pages.lemma_at(j);
                self.vm.ept.pages.lemma_at(j);
                assert(self.vm.ept.pages.vals@[j]@ == Self::restored(
                    start.vm.ept.pages.vals@[j]@,
                    start.original(p)->0,
                ));
            }
            assert(self.vm.ept@ =~= goal);
            assert forall|p: u64| #[trigger] self.vm.ept@.contains_key(p) implies is_page(p)
                && page_state_wf(self.vm.ept@[p]) && self.mapping_wf(p) by {
                assert(start.vm.ept@.contains_key(p));
                start.lemma_page_len(p);
            }
            assert forall|p: u64| #[trigger] self.page(p) == start.master->0.page(p) by {
                if self.vm.ept@.contains_key(p) {
                    assert(self.mapping_wf(p));
                }
            }
        }
    }
}

/// Asking for a page, for whatever access and with whatever result, changes no
/// byte that the guest sees, no mapping of another page, and nothing else.
pub proof fn law_translation_is_invisible<C>(
    before: &Worker<C>,
    after: &Worker<C>,
    gpaddr: PhysAddr,
    write: bool,
    r: Option<u64>,
)
    requires
        before.translated(*after, gpaddr, write, r),
    ensures
        forall|addr: u64| #[trigger] after.mem(addr) == before.mem(addr),
        forall|p: u64|
            p != page_of(gpaddr.0) ==> #[trigger] after.vm.ept.at(p) == before.vm.ept.at(p),
        after.same_but_ept(*before),
{
    assert forall|addr: u64| #[trigger] after.mem(addr) == before.mem(addr) by {
        assert(after.page(page_of(addr)) == before.page(page_of(addr)));
    }
}

/// Whatever happens to the memory of a worker, its master and the other workers
/// of that master see what they saw.
pub proof fn law_workers_are_isolated<C>(
    before: &Worker<C>,
    after: &Worker<C>,
    other: &Worker<C>,
    page: u64,
)
    requires
        after.same_but_ept(*before),
        before.master is Some,
        other.master == before.master,
    ensures
        after.master->0.page(page) == before.master->0.page(page),
        other.original(page) == after.original(page),
        other.vm.ept.copy_at(page) is None ==> other.page(page) == before.original(page),
{
}

/// Memory can be asked for if and only if it is there, and the place on its page is
/// what is left of the address behind the last whole page. For a write the page then
/// is the guest's own, holds what it held, and is dirty.
pub proof fn law_translation<C>(
    before: &Worker<C>,
    after: &Worker<C>,
    gpaddr: PhysAddr,
    write: bool,
    r: Option<u64>,
)
    requires
        before.wf(),
        before.translated(*after, gpaddr, write, r),
    ensures
        r is Some <==> before.mem(gpaddr.0) is Some,
        r matches Some(offset) ==> {
            let page = (gpaddr.0 - offset) as u64;
            &&& offset < 4096
            &&& page % 4096 == 0
            &&& after.vm.ept.at(page) is Some
            &&& write ==> after.vm.ept.at(page)->0.copy == before.page(page) && after.vm.ept.at(
                page,
            )->0.dirty && after.vm.ept.at(page)->0.flags.write
            &&& !write && before.vm.ept.at(page) is Some ==> after.vm.ept.at(page)
                == before.vm.ept.at(page)
        },
        r is None ==> after == before,
{
    let page = page_of(gpaddr.0);
    before.lemma_page_present(page);
    if before.vm.ept@.contains_key(page) {
        assert(before.mapping_wf(page));
        assert(page_state_wf(before.vm.ept@[page]));
    }
}

/// A guest sees its own copy of a page where it has one, or else the page of its
/// master, or else that of the snapshot, and each byte at its place on the page.
pub proof fn law_what_a_guest_sees<C>(worker: &Worker<C>, page: u64, i: int)
    requires
        page % 4096 == 0,
        0 <= i < 4096,
    ensures
        worker.page(page) == match worker.vm.ept.copy_at(page) {
            Some(copy) => Some(copy),
            None => match (worker.master, worker.network_mem) {
                (Some(master), _) => master.page(page),
                (None, Some(backing)) => backing.page(page),
                _ => None,
            },
        },
        worker.mem((page + i) as u64) == match worker.page(page) {
            Some(bytes) => Some(bytes[i]),
            None => None,
        },
{
}

} // verus!
