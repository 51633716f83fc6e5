//! Reading and writing the guest physical memory of a worker.
use vstd::prelude::*;
use crate::bytes::{le_bytes, le_value, lemma_le_bytes_len};
use crate::ept::{copy_bytes, overwritten, page_state_wf, touched, PageState};
use crate::page::{
    addr_space, covers, distance, is_page, lemma_distance, lemma_page, lemma_same_page,
    lemma_wrap, lemma_wrap_wrap, page_addr, page_of, page_offset, reaches, wrap, PhysAddr,
};
use crate::primitive::{from_bytes, law_cast_mut_round_trip, law_cast_round_trip, Primitive};
use crate::worker::{written, Worker};

verus! {

/// Where a run that has reached `done` bytes goes on for `n` bytes on one page,
/// it reaches that page besides those that it had reached.
proof fn lemma_reaches_step(base: u64, done: int, n: int)
    requires
        0 <= done,
        1 <= n <= 4096 - wrap(base, done) % 4096,
        done + n < addr_space(),
    ensures
        forall|q: u64|
            #![trigger reaches(base, done + n, q)]
            reaches(base, done + n, q) <==> reaches(base, done, q) || q == page_of(
                wrap(base, done),
            ),
{
    let addr = wrap(base, done);
    let page = page_of(addr);
    lemma_page(addr);
    lemma_distance(base, done);
    assert forall|q: u64|
        #![trigger reaches(base, done + n, q)]
        reaches(base, done + n, q) <==> reaches(base, done, q) || q == page by {
        if reaches(base, done + n, q) {
            let a = choose|a: u64| #[trigger] page_of(a) == q && covers(base, done + n, a);
            lemma_wrap(base, a);
            let i = distance(base, a);
            if i >= done {
                lemma_wrap_wrap(base, done, i - done);
                assert(a == addr + (i - done));
                lemma_same_page(page, a);
            } else {
                assert(page_of(a) == q && covers(base, done, a));
            }
        }
        if reaches(base, done, q) {
            let a = choose|a: u64| #[trigger] page_of(a) == q && covers(base, done, a);
            assert(page_of(a) == q && covers(base, done + n, a));
        }
        if q == page {
            assert(page_of(addr) == q && covers(base, done + n, addr));
        }
    }
}

/// Nothing is reached by no bytes.
proof fn lemma_reaches_nothing(base: u64)
    ensures
        forall|q: u64| !#[trigger] reaches(base, 0, q),
{
    assert forall|q: u64| !#[trigger] reaches(base, 0, q) by {
        if reaches(base, 0, q) {
            let a = choose|a: u64| #[trigger] page_of(a) == q && covers(base, 0, a);
            lemma_wrap(base, a);
        }
    }
}

/// Two runs of one page: going on from `done` for `n` bytes.
proof fn lemma_chunk_addrs(base: u64, done: int, n: int)
    requires
        0 <= done,
        1 <= n <= 4096 - wrap(base, done) % 4096,
        done + n < addr_space(),
    ensures
        forall|i: int|
            #![trigger wrap(base, i)]
            done <= i < done + n ==> wrap(base, i) == wrap(base, done) + (i - done) && page_of(
                wrap(base, i),
            ) == page_of(wrap(base, done)),
{
    let addr = wrap(base, done);
    lemma_page(addr);
    assert forall|i: int| #![trigger wrap(base, i)] done <= i < done + n implies wrap(base, i)
        == addr + (i - done) && page_of(wrap(base, i)) == page_of(addr) by {
        lemma_wrap_wrap(base, done, i - done);
        lemma_same_page(page_of(addr), wrap(base, i));
    }
}

/// The address `i` bytes behind `base`.
fn wrapping_addr(base: u64, i: usize) -> (r: u64)
    ensures
        r == wrap(base, i as int),
{
    base.wrapping_add(i as u64)
}

impl<C> Worker<C> {
    /// The bytes before the first missing one are there.
    pub proof fn lemma_present(&self, base: u64, len: nat)
        ensures
            self.present_len(base, len) <= len,
            forall|i: int|
                0 <= i < self.present_len(base, len) ==> self.mem(#[trigger] wrap(base, i)) is Some,
            self.present_len(base, len) < len ==> self.mem(
                wrap(base, self.present_len(base, len) as int),
            ) is None,
        decreases len,
    {
        if len > 0 {
            self.lemma_present(base, (len - 1) as nat);
        }
    }

    /// Where the first `k` bytes are there, no byte before the `k`th one is the
    /// first that is missing.
    pub proof fn lemma_present_at_least(&self, base: u64, len: nat, k: nat)
        requires
            k <= len,
            forall|i: int| 0 <= i < k ==> self.mem(#[trigger] wrap(base, i)) is Some,
        ensures
            self.present_len(base, len) >= k,
    {
        self.lemma_present(base, len);
    }

    /// Reading on, on one page, asks for that page.
    proof fn lemma_read_step(&self, next: &Self, base: u64, done: int, n: int)
        requires
            0 <= done,
            1 <= n <= 4096 - wrap(base, done) % 4096,
            done + n < addr_space(),
            next.same_but_ept(*self),
            next.vm.ept@ == self.ept_after_read(base, done),
        ensures
            self.ept_after_read(base, done + n) == next.vm.ept@.insert(
                page_of(wrap(base, done)),
                touched(
                    next.vm.ept.at(page_of(wrap(base, done))),
                    self.original(page_of(wrap(base, done)))->0,
                    false,
                ),
            ),
    {
        lemma_reaches_step(base, done, n);
        assert(self.ept_after_read(base, done + n) =~= next.vm.ept@.insert(
            page_of(wrap(base, done)),
            touched(
                next.vm.ept.at(page_of(wrap(base, done))),
                self.original(page_of(wrap(base, done)))->0,
                false,
            ),
        ));
    }

    /// The bytes of a page that is there are those that the guest sees.
    proof fn lemma_page_bytes(&self, base: u64, done: int, n: int)
        requires
            0 <= done,
            1 <= n <= 4096 - wrap(base, done) % 4096,
            done + n < addr_space(),
            self.page(page_of(wrap(base, done))) is Some,
        ensures
            forall|i: int|
                done <= i < done + n ==> self.mem(#[trigger] wrap(base, i)) == Some(
                    self.page(page_of(wrap(base, done)))->0[wrap(base, done) % 4096 + (i - done)],
                ),
    {
        let addr = wrap(base, done);
        lemma_page(addr);
        lemma_chunk_addrs(base, done, n);
        assert forall|i: int| done <= i < done + n implies self.mem(#[trigger] wrap(base, i))
            == Some(self.page(page_of(addr))->0[addr % 4096 + (i - done)]) by {
            lemma_same_page(page_of(addr), wrap(base, i));
        }
    }

    /// What `buf` holds once `done` bytes of a run were read into it.
    pub open spec fn read_into(
        self,
        base: u64,
        before: Seq<u8>,
        from: int,
        done: int,
        buf: Seq<u8>,
    ) -> bool {
        &&& buf.len() == before.len()
        &&& forall|j: int|
            0 <= j < buf.len() ==> #[trigger] buf[j] == if from <= j < from + done {
                self.mem(wrap(base, j - from))->0
            } else {
                before[j]
            }
    }

    proof fn lemma_read_bytes(
        &self,
        base: u64,
        before: Seq<u8>,
        from: int,
        done: int,
        n: int,
        mid: Seq<u8>,
        buf: Seq<u8>,
    )
        requires
            0 <= done,
            1 <= n <= 4096 - wrap(base, done) % 4096,
            done + n < addr_space(),
            self.page(page_of(wrap(base, done))) is Some,
            self.read_into(base, before, from, done, mid),
            0 <= from,
            from + done + n <= mid.len(),
            buf == overwritten(
                mid,
                from + done,
                self.page(page_of(wrap(base, done)))->0,
                (wrap(base, done) % 4096) as int,
                n,
            ),
        ensures
            self.read_into(base, before, from, done + n, buf),
    {
        self.lemma_page_bytes(base, done, n);
        assert forall|j: int| 0 <= j < buf.len() implies #[trigger] buf[j] == if from <= j < from + (
        done + n) {
            self.mem(wrap(base, j - from))->0
        } else {
            before[j]
        } by {
            if from + done <= j < from + done + n {
                assert(self.mem(wrap(base, j - from)) == Some(
                    self.page(page_of(wrap(base, done)))->0[wrap(base, done) % 4096 + (j - from
                        - done)],
                ));
            } else {
                assert(buf[j] == mid[j]);
            }
        }
    }

    /// Copies the `n` bytes at `offset` of a page that is there.
    fn copy_out(&self, page: u64, offset: usize, n: usize, buf: &mut [u8], at: usize)
        requires
            self.wf(),
            is_page(page),
            self.is_aligned(page),
            self.page(page) is Some,
            offset + n <= 4096,
            at + n <= old(buf)@.len(),
        ensures
            final(buf)@ == overwritten(
                old(buf)@,
                at as int,
                self.page(page)->0,
                offset as int,
                n as int,
            ),
    {
        match self.get_page(PhysAddr(page)) {
            Some(bytes) => {
                copy_bytes(buf, at, bytes, offset, n);
            },
            None => {},
        }
    }

    /// Reads up to `len` bytes of the run of addresses that starts at `base`
    /// into `buf`, from `from` on. The run ends before the first byte that is
    /// missing. Gives the number of bytes that were read.
    pub(crate) fn read_span(&mut self, base: u64, buf: &mut [u8], from: usize, len: usize) -> (k:
        usize)
        requires
            old(self).wf(),
            from + len <= old(buf)@.len(),
            old(self).span_aligned(base, len as nat),
        ensures
            final(self).wf(),
            final(self).same_but_ept(*old(self)),
            k == old(self).present_len(base, len as nat),
            final(self).vm.ept@ == old(self).ept_after_read(base, k as int),
            forall|p: u64| #[trigger] final(self).page(p) == old(self).page(p),
            old(self).read_into(base, old(buf)@, from as int, k as int, final(buf)@),
    {
        let ghost start = *self;
        let mut done: usize = 0;
        let buf_len: usize = buf.len();
        proof {
            lemma_reaches_nothing(base);
            assert(start.vm.ept@ =~= start.ept_after_read(base, 0));
            start.lemma_present(base, len as nat);
        }
        while done < len
            invariant
                *old(self) == start,
                start.wf(),
                start.span_aligned(base, len as nat),
                self.wf(),
                self.same_but_ept(start),
                done <= len,
                from + len <= buf_len == buf@.len(),
                self.vm.ept@ == start.ept_after_read(base, done as int),
                forall|p: u64| #[trigger] self.page(p) == start.page(p),
                forall|i: int| 0 <= i < done ==> start.mem(#[trigger] wrap(base, i)) is Some,
                start.read_into(base, old(buf)@, from as int, done as int, buf@),
            decreases len - done,
        {
            let addr: u64 = wrapping_addr(base, done);
            let page: u64 = page_addr(addr);
            let ghost before = *self;
            let ghost buf_before = buf@;
            proof {
                start.lemma_present_at_least(base, len as nat, done as nat);
                start.lemma_present(base, len as nat);
                start.lemma_page_present(page);
                assert(start.is_aligned(page_of(wrap(base, done as int))));
                lemma_page(addr);
            }
            match self.translate(PhysAddr(addr), false) {
                Some(offset) => {
                    let room: usize = (4096 - offset) as usize;
                    let n: usize = if room < len - done {
                        room
                    } else {
                        len - done
                    };
                    self.copy_out(page, offset as usize, n, buf, from + done);
                    proof {
                        start.lemma_read_step(&before, base, done as int, n as int);
                        start.lemma_page_bytes(base, done as int, n as int);
                        start.lemma_read_bytes(
                            base,
                            old(buf)@,
                            from as int,
                            done as int,
                            n as int,
                            buf_before,
                            buf@,
                        );
                    }
                    done = done + n;
                },
                None => {
                    proof {
                        assert(start.mem(wrap(base, done as int)) is None);
                    }
                    return done;
                },
            }
        }
        proof {
            start.lemma_present_at_least(base, len as nat, len as nat);
        }
        done
    }

    /// On the page on which a run goes on, it covers what it had covered, and
    /// the bytes that it goes on to.
    proof fn lemma_covers_step(base: u64, done: int, n: int, addr: u64)
        requires
            0 <= done,
            1 <= n <= 4096 - wrap(base, done) % 4096,
            done + n < addr_space(),
        ensures
            covers(base, done + n, addr) <==> covers(base, done, addr) || wrap(base, done) <= addr
                < wrap(base, done) + n,
            wrap(base, done) <= addr < wrap(base, done) + n ==> distance(base, addr) == done + (addr
                - wrap(base, done)),
            covers(base, done, addr) ==> covers(base, done + n, addr),
    {
        let at = wrap(base, done);
        lemma_wrap(base, addr);
        lemma_chunk_addrs(base, done, n);
        let i = distance(base, addr);
        if done <= i < done + n {
            assert(wrap(base, i) == at + (i - done));
        }
        if at <= addr < at + n {
            let j = done + (addr - at);
            assert(wrap(base, j) == addr);
            lemma_distance(base, j);
        }
    }

    /// Writing on, on one page, asks for that page and overwrites it.
    proof fn lemma_write_step(&self, next: &Self, base: u64, done: int, n: int, data: Seq<u8>)
        requires
            self.wf(),
            0 <= done,
            1 <= n <= 4096 - wrap(base, done) % 4096,
            done + n < addr_space(),
            self.original(page_of(wrap(base, done))) is Some,
            next.same_but_ept(*self),
            next.vm.ept@ == self.ept_after_write(base, done, data),
        ensures
            ({
                let page = page_of(wrap(base, done));
                let state = touched(next.vm.ept.at(page), self.original(page)->0, true);
                self.ept_after_write(base, done + n, data) == next.vm.ept@.insert(
                    page,
                    PageState {
                        copy: Some(
                            overwritten(
                                state.copy->0,
                                (wrap(base, done) % 4096) as int,
                                data,
                                done,
                                n,
                            ),
                        ),
                        ..state
                    },
                )
            }),
    {
        let at = wrap(base, done);
        let page = page_of(at);
        let orig = self.original(page)->0;
        let state = touched(next.vm.ept.at(page), orig, true);
        let bytes = overwritten(state.copy->0, (at % 4096) as int, data, done, n);
        let result = PageState { copy: Some(bytes), ..state };
        lemma_page(at);
        lemma_reaches_step(base, done, n);
        self.lemma_page_len(page);
        let fresh = touched(self.vm.ept.at(page), orig, true);
        if self.vm.ept@.contains_key(page) {
            assert(self.mapping_wf(page));
        }
        let goal = written(fresh, page, base, done + n, data);
        assert forall|j: int| 0 <= j < 4096 implies #[trigger] goal.copy->0[j] == bytes[j] by {
            let addr = (page + j) as u64;
            lemma_same_page(page, addr);
            Self::lemma_covers_step(base, done, n, addr);
            if !reaches(base, done, page) {
                assert(!covers(base, done, addr)) by {
                    if covers(base, done, addr) {
                        assert(page_of(addr) == page && covers(base, done, addr));
                    }
                }
            }
        }
        assert(goal.copy->0 =~= bytes);
        let before = next.vm.ept@;
        let after = self.ept_after_write(base, done + n, data);
        assert forall|q: u64| #[trigger] after.contains_key(q) && q != page implies after[q]
            == before[q] by {
            if reaches(base, done, q) {
                let st = touched(self.vm.ept.at(q), self.original(q)->0, true);
                let w1 = written(st, q, base, done + n, data);
                let w0 = written(st, q, base, done, data);
                let reached = choose|a: u64| #[trigger] page_of(a) == q && covers(base, done, a);
                lemma_page(reached);
                assert forall|j: int| 0 <= j < 4096 implies #[trigger] w1.copy->0[j]
                    == w0.copy->0[j] by {
                    let addr = (q + j) as u64;
                    lemma_same_page(q, addr);
                    Self::lemma_covers_step(base, done, n, addr);
                    if at <= addr < at + n {
                        lemma_same_page(page, addr);
                    }
                }
                assert(w1.copy->0 =~= w0.copy->0);
            }
        }
        assert(after =~= before.insert(page, result));
    }

    /// What the guest sees once `len` bytes of `data` were written from `base`
    /// on.
    pub open spec fn mem_after_write(self, base: u64, len: int, data: Seq<u8>, addr: u64) -> Option<
        u8,
    > {
        if covers(base, len, addr) {
            Some(data[distance(base, addr)])
        } else {
            self.mem(addr)
        }
    }

    /// The mapping after a write shows the bytes that were written, and
    /// otherwise what was there.
    pub proof fn lemma_mem_after_write(&self, next: &Self, base: u64, len: int, data: Seq<u8>)
        requires
            self.wf(),
            next.same_but_ept(*self),
            next.vm.ept@ == self.ept_after_write(base, len, data),
            0 <= len < addr_space(),
            forall|i: int| 0 <= i < len ==> self.mem(#[trigger] wrap(base, i)) is Some,
        ensures
            forall|addr: u64| #[trigger]
                next.mem(addr) == self.mem_after_write(base, len, data, addr),
    {
        assert forall|addr: u64| #[trigger] next.mem(addr) == self.mem_after_write(
            base,
            len,
            data,
            addr,
        ) by {
            let page = page_of(addr);
            lemma_page(addr);
            if reaches(base, len, page) {
                let a = choose|a: u64| #[trigger] page_of(a) == page && covers(base, len, a);
                lemma_wrap(base, a);
                assert(self.mem(wrap(base, distance(base, a))) is Some);
                self.lemma_page_present(page);
                self.lemma_page_len(page);
                if self.vm.ept@.contains_key(page) {
                    assert(self.mapping_wf(page));
                }
                assert((page + (addr - page)) as u64 == addr);
                assert(addr % 4096 == addr - page);
            } else {
                if covers(base, len, addr) {
                    assert(page_of(addr) == page && covers(base, len, addr));
                }
            }
        }
    }

    /// Writes up to `len` bytes of `data`, from `from` on, to the run of addresses
    /// that starts at `base`. The run ends before the first byte that is missing.
    /// Gives the number of bytes that were written.
    pub(crate) fn write_span(&mut self, base: u64, data: &[u8], from: usize, len: usize) -> (k:
        usize)
        requires
            old(self).wf(),
            from + len <= data@.len(),
            old(self).span_aligned(base, len as nat),
        ensures
            final(self).wf(),
            final(self).same_but_ept(*old(self)),
            k == old(self).present_len(base, len as nat),
            final(self).vm.ept@ == old(self).ept_after_write(
                base,
                k as int,
                data@.subrange(from as int, from + len),
            ),
            forall|addr: u64| #[trigger]
                final(self).mem(addr) == old(self).mem_after_write(
                    base,
                    k as int,
                    data@.subrange(from as int, from + len),
                    addr,
                ),
    {
        let ghost start = *self;
        let ghost bytes = data@.subrange(from as int, from + len);
        let mut done: usize = 0;
        let data_len: usize = data.len();
        proof {
            lemma_reaches_nothing(base);
            assert(start.vm.ept@ =~= start.ept_after_write(base, 0, bytes));
            start.lemma_present(base, len as nat);
        }
        while done < len
            invariant
                *old(self) == start,
                start.wf(),
                start.span_aligned(base, len as nat),
                self.wf(),
                self.same_but_ept(start),
                done <= len,
                from + len <= data_len == data@.len(),
                bytes == data@.subrange(from as int, from + len),
                self.vm.ept@ == start.ept_after_write(base, done as int, bytes),
                forall|i: int| 0 <= i < done ==> start.mem(#[trigger] wrap(base, i)) is Some,
            decreases len - done,
        {
            let addr: u64 = wrapping_addr(base, done);
            let page: u64 = page_addr(addr);
            let ghost before = *self;
            proof {
                start.lemma_present_at_least(base, len as nat, done as nat);
                start.lemma_present(base, len as nat);
                start.lemma_page_present(page);
                assert(start.is_aligned(page_of(wrap(base, done as int))));
                lemma_page(addr);
            }
            match self.translate(PhysAddr(addr), true) {
                Some(offset) => {
                    let room: usize = (4096 - offset) as usize;
                    let n: usize = if room < len - done {
                        room
                    } else {
                        len - done
                    };
                    let ghost mapped = *self;
                    self.vm.ept.store(page, offset as usize, data, from + done, n);
                    proof {
                        start.lemma_page_bytes(base, done as int, n as int);
                        start.lemma_write_step(&before, base, done as int, n as int, bytes);
                        let old_bytes = mapped.vm.ept@[page].copy->0;
                        assert(overwritten(
                            old_bytes,
                            offset as int,
                            data@,
                            from + done,
                            n as int,
                        ) =~= overwritten(old_bytes, offset as int, bytes, done as int, n as int));
                        assert(self.vm.ept@ =~= start.ept_after_write(base, done + n, bytes));
                        assert forall|p: u64| #[trigger] self.vm.ept@.contains_key(p) implies
                            self.mapping_wf(p) by {
                            assert(mapped.vm.ept@.contains_key(p));
                            assert(mapped.mapping_wf(p));
                        }
                    }
                    done = done + n;
                },
                None => {
                    proof {
                        assert(start.mem(wrap(base, done as int)) is None);
                        start.lemma_mem_after_write(self, base, done as int, bytes);
                    }
                    return done;
                },
            }
        }
        proof {
            start.lemma_present_at_least(base, len as nat, len as nat);
            start.lemma_mem_after_write(self, base, done as int, bytes);
        }
        done
    }

    /// The `len` bytes that the guest sees from `base` on.
    pub open spec fn bytes_at(self, base: u64, len: nat) -> Seq<u8> {
        Seq::new(len, |i: int| self.mem(wrap(base, i))->0)
    }

    /// An access to `len` bytes from `base` on does not run over the end of the
    /// address space.
    pub open spec fn span_in_range(self, base: u64, len: nat) -> bool {
        base + self.present_len(base, len) <= u64::MAX
    }

    /// How many of the `len` bytes from `base` on there are before the first one
    /// that is missing. Gives `None` if a page that has to be looked for is not
    /// well placed in the snapshot.
    pub fn present(&self, base: u64, len: usize) -> (r: Option<usize>)
        requires
            self.wf(),
        ensures
            match r {
                Some(k) => self.span_aligned(base, len as nat) && k == self.present_len(
                    base,
                    len as nat,
                ),
                None => !self.span_aligned(base, len as nat),
            },
    {
        let mut done: usize = 0;
        while done < len
            invariant
                self.wf(),
                done <= len,
                forall|i: int|
                    0 <= i < done ==> self.mem(#[trigger] wrap(base, i)) is Some
                        && self.is_aligned(page_of(wrap(base, i))),
            decreases len - done,
        {
            let addr: u64 = wrapping_addr(base, done);
            let page: u64 = page_addr(addr);
            proof {
                self.lemma_present_at_least(base, len as nat, done as nat);
                self.lemma_present(base, len as nat);
                lemma_page(addr);
            }
            if !self.page_aligned(page) {
                assert(!self.is_aligned(page_of(wrap(base, done as int))));
                return None;
            }
            match self.get_page(PhysAddr(page)) {
                Some(_) => {
                    let room: usize = (4096 - page_offset(addr)) as usize;
                    let n: usize = if room < len - done {
                        room
                    } else {
                        len - done
                    };
                    proof {
                        self.lemma_page_bytes(base, done as int, n as int);
                        lemma_chunk_addrs(base, done as int, n as int);
                    }
                    done = done + n;
                },
                None => {
                    assert(self.mem(wrap(base, done as int)) is None);
                    return Some(done);
                },
            }
        }
        proof {
            self.lemma_present_at_least(base, len as nat, len as nat);
            self.lemma_present(base, len as nat);
        }
        Some(done)
    }

    /// What a read of guest physical memory into a buffer does, and whether it is
    /// completed.
    pub open spec fn phys_read(
        self,
        after: Self,
        gpaddr: u64,
        buf: Seq<u8>,
        buf_after: Seq<u8>,
        complete: bool,
    ) -> bool {
        let k = self.present_len(gpaddr, buf.len()) as int;
        &&& after.same_but_ept(self)
        &&& forall|p: u64| #[trigger] after.page(p) == self.page(p)
        &&& complete <==> k == buf.len()
        &&& after.vm.ept@ == self.ept_after_read(gpaddr, k)
        &&& self.read_into(gpaddr, buf, 0, k, buf_after)
    }

    /// What a read of a primitive from guest physical memory does, and gives.
    pub open spec fn phys_value_read<T: Primitive>(
        self,
        after: Self,
        gpaddr: u64,
        r: Option<T>,
    ) -> bool {
        let k = self.present_len(gpaddr, T::spec_size());
        &&& after.same_but_ept(self)
        &&& forall|p: u64| #[trigger] after.page(p) == self.page(p)
        &&& after.vm.ept@ == self.ept_after_read(gpaddr, k as int)
        &&& match r {
            Some(value) => {
                &&& k == T::spec_size()
                &&& value.bits() == le_value(self.bytes_at(gpaddr, T::spec_size()))
            },
            None => k < T::spec_size(),
        }
    }

    /// What a write of `data` to guest physical memory does, and whether it is
    /// completed.
    pub open spec fn phys_written(
        self,
        after: Self,
        gpaddr: u64,
        data: Seq<u8>,
        complete: bool,
    ) -> bool {
        let k = self.present_len(gpaddr, data.len()) as int;
        &&& after.same_but_ept(self)
        &&& complete <==> k == data.len()
        &&& after.vm.ept@ == self.ept_after_write(gpaddr, k, data)
        &&& forall|addr: u64| #[trigger]
            after.mem(addr) == self.mem_after_write(gpaddr, k, data, addr)
    }

    /// Whether `len` bytes from `base` on can be asked for: the pages that have to
    /// be looked for are well placed in the snapshot, and the access does not run
    /// over the end of the address space.
    pub fn can_access(&self, base: u64, len: usize) -> (r: bool)
        requires
            self.wf(),
        ensures
            r == (self.span_aligned(base, len as nat) && self.span_in_range(base, len as nat)),
    {
        match self.present(base, len) {
            Some(k) => base.checked_add(k as u64).is_some(),
            None => false,
        }
    }

    /// Read the contents of the guest physical memory at `gpaddr` into the
    /// `buf` provided.
    ///
    /// Returns `None` if the request cannot be fully satisfied. It is possible
    /// that some reading did occur, but is partial.
    pub fn read_phys_into(&mut self, gpaddr: PhysAddr, buf: &mut [u8]) -> (r: Option<()>)
        requires
            old(self).wf(),
            old(self).span_aligned(gpaddr.0, old(buf)@.len()),
            old(self).span_in_range(gpaddr.0, old(buf)@.len()),
        ensures
            final(self).wf(),
            old(self).phys_read(*final(self), gpaddr.0, old(buf)@, final(buf)@, r is Some),
    {
        let len: usize = buf.len();
        let k: usize = self.read_span(gpaddr.0, buf, 0, len);
        if k == len {
            Some(())
        } else {
            None
        }
    }

    /// Reads the contents at `gpaddr` into a `T` which implements `Primitive`.
    pub fn read_phys<T: Primitive>(&mut self, gpaddr: PhysAddr) -> (r: Option<T>)
        requires
            old(self).wf(),
            old(self).span_aligned(gpaddr.0, T::spec_size()),
            old(self).span_in_range(gpaddr.0, T::spec_size()),
        ensures
            final(self).wf(),
            old(self).phys_value_read(*final(self), gpaddr.0, r),
    {
        let size: usize = T::size();
        let mut buf: Vec<u8> = vec![0u8; size];
        proof {
            self.lemma_present(gpaddr.0, T::spec_size());
        }
        match self.read_phys_into(gpaddr, buf.as_mut_slice()) {
            Some(_) => {
                assert(buf@ =~= old(self).bytes_at(gpaddr.0, T::spec_size()));
                Some(from_bytes(buf.as_slice()))
            },
            None => None,
        }
    }

    /// Write the contents of `buf` into the guest physical memory at `gpaddr`.
    ///
    /// Returns `None` if the request cannot be fully satisfied. It is possible
    /// that some writing did occur, but is partial.
    pub fn write_phys_from(&mut self, gpaddr: PhysAddr, buf: &[u8]) -> (r: Option<()>)
        requires
            old(self).wf(),
            old(self).span_aligned(gpaddr.0, buf@.len()),
            old(self).span_in_range(gpaddr.0, buf@.len()),
        ensures
            final(self).wf(),
            old(self).phys_written(*final(self), gpaddr.0, buf@, r is Some),
    {
        let len: usize = buf.len();
        assert(buf@.subrange(0, 0 + len) =~= buf@);
        let k: usize = self.write_span(gpaddr.0, buf, 0, len);
        if k == len {
            Some(())
        } else {
            None
        }
    }

    /// Writes the contents of `T` to the `gpaddr`.
    pub fn write_phys<T: Primitive>(&mut self, gpaddr: PhysAddr, val: T) -> (r: Option<()>)
        requires
            old(self).wf(),
            old(self).span_aligned(gpaddr.0, T::spec_size()),
            old(self).span_in_range(gpaddr.0, T::spec_size()),
        ensures
            final(self).wf(),
            old(self).phys_written(
                *final(self),
                gpaddr.0,
                le_bytes(val.bits(), T::spec_size()),
                r is Some,
            ),
    {
        let bytes: Vec<u8> = val.cast();
        proof {
            lemma_le_bytes_len(val.bits(), T::spec_size());
        }
        self.write_phys_from(gpaddr, bytes.as_slice())
    }
}

/// What is written to guest physical memory is what is read back from it.
pub proof fn law_read_back<C>(
    before: &Worker<C>,
    after: &Worker<C>,
    gpaddr: u64,
    data: Seq<u8>,
    old_buf: Seq<u8>,
    buf: Seq<u8>,
)
    requires
        data.len() < addr_space(),
        before.present_len(gpaddr, data.len()) == data.len(),
        forall|addr: u64| #[trigger]
            after.mem(addr) == before.mem_after_write(gpaddr, data.len() as int, data, addr),
        old_buf.len() == data.len(),
        after.read_into(
            gpaddr,
            old_buf,
            0,
            after.present_len(gpaddr, data.len()) as int,
            buf,
        ),
    ensures
        after.present_len(gpaddr, data.len()) == data.len(),
        buf == data,
{
    let len = data.len() as int;
    assert forall|i: int| 0 <= i < len implies after.mem(#[trigger] wrap(gpaddr, i)) == Some(
        data[i],
    ) by {
        lemma_distance(gpaddr, i);
    }
    after.lemma_present(gpaddr, data.len());
    assert(buf =~= data);
}

/// A primitive that is written to guest physical memory is what is read back.
pub proof fn law_read_back_primitive<C, T: Primitive>(
    before: &Worker<C>,
    after: &Worker<C>,
    gpaddr: u64,
    value: T,
    read: T,
)
    requires
        before.present_len(gpaddr, T::spec_size()) == T::spec_size(),
        forall|addr: u64| #[trigger]
            after.mem(addr) == before.mem_after_write(
                gpaddr,
                T::spec_size() as int,
                le_bytes(value.bits(), T::spec_size()),
                addr,
            ),
        read.bits() == le_value(after.bytes_at(gpaddr, T::spec_size())),
    ensures
        after.present_len(gpaddr, T::spec_size()) == T::spec_size(),
        read == value,
{
    let data = le_bytes(value.bits(), T::spec_size());
    lemma_le_bytes_len(value.bits(), T::spec_size());
    value.lemma_bits(read);
    assert forall|i: int| 0 <= i < data.len() implies after.mem(#[trigger] wrap(gpaddr, i)) == Some(
        data[i],
    ) by {
        lemma_distance(gpaddr, i);
    }
    after.lemma_present(gpaddr, T::spec_size());
    assert(after.bytes_at(gpaddr, T::spec_size()) =~= data);
    law_cast_round_trip(value, read);
}

/// A write leaves alone all memory that it does not cover.
pub proof fn law_write_elsewhere<C>(
    before: &Worker<C>,
    after: &Worker<C>,
    gpaddr: u64,
    data: Seq<u8>,
    other: u64,
    len: nat,
)
    requires
        data.len() + len <= addr_space(),
        forall|addr: u64| #[trigger]
            after.mem(addr) == before.mem_after_write(
                gpaddr,
                before.present_len(gpaddr, data.len()) as int,
                data,
                addr,
            ),
        distance(gpaddr, other) >= data.len(),
        distance(gpaddr, other) + len <= addr_space(),
    ensures
        after.present_len(other, len) == before.present_len(other, len),
        after.bytes_at(other, len) == before.bytes_at(other, len),
{
    before.lemma_present(gpaddr, data.len());
    assert forall|i: int| 0 <= i < len implies after.mem(#[trigger] wrap(other, i)) == before.mem(
        wrap(other, i),
    ) by {
        lemma_wrap(gpaddr, other);
        lemma_wrap_wrap(gpaddr, distance(gpaddr, other), i);
        lemma_distance(gpaddr, distance(gpaddr, other) + i);
    }
    before.lemma_present(other, len);
    after.lemma_present(other, len);
    let a = before.present_len(other, len) as int;
    let b = after.present_len(other, len) as int;
    if a < b {
        assert(after.mem(wrap(other, a)) is Some);
    }
    if b < a {
        assert(before.mem(wrap(other, b)) is Some);
    }
    assert(after.bytes_at(other, len) =~= before.bytes_at(other, len));
}

/// A read of guest physical memory is completed if and only if all bytes are there.
/// It gives the bytes from the address on, in order, up to the first one that is
/// missing, leaves the rest of the buffer alone, and changes no byte of the guest.
pub proof fn law_phys_read<C>(
    worker: &Worker<C>,
    after: &Worker<C>,
    gpaddr: u64,
    buf: Seq<u8>,
    buf_after: Seq<u8>,
    complete: bool,
    k: int,
)
    requires
        worker.phys_read(*after, gpaddr, buf, buf_after, complete),
        gpaddr + k < 0x1_0000_0000_0000_0000,
        0 <= k <= buf.len(),
        forall|i: int| 0 <= i < k ==> worker.mem(#[trigger] at(gpaddr, i)) is Some,
        k < buf.len() ==> worker.mem(at(gpaddr, k)) is None,
    ensures
        complete <==> k == buf.len(),
        buf_after.len() == buf.len(),
        forall|i: int|
            0 <= i < k ==> worker.mem(at(gpaddr, i)) == Some(#[trigger] buf_after[i]),
        forall|i: int| k <= i < buf.len() ==> #[trigger] buf_after[i] == buf[i],
        forall|addr: u64| #[trigger] after.mem(addr) == worker.mem(addr),
        after.vm.guest_regs == worker.vm.guest_regs,
{
    lemma_present_is(worker, gpaddr, buf.len(), k);
    assert forall|i: int| 0 <= i < k implies worker.mem(at(gpaddr, i)) == Some(
        #[trigger] buf_after[i],
    ) by {
        assert(wrap(gpaddr, i) == at(gpaddr, i));
    }
    assert forall|addr: u64| #[trigger] after.mem(addr) == worker.mem(addr) by {
        assert(after.page(page_of(addr)) == worker.page(page_of(addr)));
    }
}

/// The address `i` bytes behind `gpaddr`.
pub open spec fn at(gpaddr: u64, i: int) -> u64 {
    (gpaddr + i) as u64
}

proof fn lemma_present_is<C>(worker: &Worker<C>, gpaddr: u64, len: nat, k: int)
    requires
        gpaddr + k < 0x1_0000_0000_0000_0000,
        0 <= k <= len,
        forall|i: int| 0 <= i < k ==> worker.mem(#[trigger] at(gpaddr, i)) is Some,
        k < len ==> worker.mem(at(gpaddr, k)) is None,
    ensures
        worker.present_len(gpaddr, len) == k,
{
    worker.lemma_present(gpaddr, len);
    let p = worker.present_len(gpaddr, len) as int;
    if p < k {
        assert(wrap(gpaddr, p) == at(gpaddr, p));
        assert(worker.mem(at(gpaddr, p)) is Some);
    }
    if p > k {
        assert(wrap(gpaddr, k) == at(gpaddr, k));
        assert(worker.mem(wrap(gpaddr, k)) is Some);
    }
}

/// A write to guest physical memory is completed if and only if all bytes are there.
/// It puts the data from the address on, in order, up to the first byte that is
/// missing, and changes no other byte.
pub proof fn law_phys_write<C>(
    worker: &Worker<C>,
    after: &Worker<C>,
    gpaddr: u64,
    data: Seq<u8>,
    complete: bool,
    k: int,
    addr: u64,
)
    requires
        worker.phys_written(*after, gpaddr, data, complete),
        gpaddr + k < 0x1_0000_0000_0000_0000,
        0 <= k <= data.len(),
        forall|i: int| 0 <= i < k ==> worker.mem(#[trigger] at(gpaddr, i)) is Some,
        k < data.len() ==> worker.mem(at(gpaddr, k)) is None,
    ensures
        complete <==> k == data.len(),
        after.mem(addr) == if gpaddr <= addr < gpaddr + k {
            Some(data[addr - gpaddr])
        } else {
            worker.mem(addr)
        },
        after.vm.guest_regs == worker.vm.guest_regs,
        after.master == worker.master,
{
    lemma_present_is(worker, gpaddr, data.len(), k);
    lemma_wrap(gpaddr, addr);
    if gpaddr <= addr {
        assert(distance(gpaddr, addr) == addr - gpaddr);
    }
}

/// A page that is written becomes the guest's own, can be written, and is dirty, so
/// that it is given back before the next fuzz case. No other mapping changes.
pub proof fn law_written_pages_are_dirty<C>(
    worker: &Worker<C>,
    after: &Worker<C>,
    gpaddr: u64,
    data: Seq<u8>,
    complete: bool,
    k: int,
    page: u64,
)
    requires
        worker.wf(),
        worker.phys_written(*after, gpaddr, data, complete),
        gpaddr + k < 0x1_0000_0000_0000_0000,
        0 <= k <= data.len(),
        forall|i: int| 0 <= i < k ==> worker.mem(#[trigger] at(gpaddr, i)) is Some,
        k < data.len() ==> worker.mem(at(gpaddr, k)) is None,
        page % 4096 == 0,
    ensures
        gpaddr < page + 4096 && page < gpaddr + k && k > 0 ==> (after.vm.ept.at(
            page,
        ) matches Some(state) && state.dirty && state.flags.write && state.copy is Some),
        !(gpaddr < page + 4096 && page < gpaddr + k && k > 0) ==> after.vm.ept.at(page)
            == worker.vm.ept.at(page),
{
    lemma_present_is(worker, gpaddr, data.len(), k);
    if gpaddr < page + 4096 && page < gpaddr + k && k > 0 {
        let addr = if gpaddr >= page {
            gpaddr
        } else {
            page
        };
        lemma_same_page(page, addr);
        assert(distance(gpaddr, addr) == addr - gpaddr);
        assert(page_of(addr) == page && covers(gpaddr, k, addr));
        assert(reaches(gpaddr, k, page));
        if worker.vm.ept@.contains_key(page) {
            assert(page_state_wf(worker.vm.ept@[page]));
        }
    } else {
        assert forall|addr: u64| !(#[trigger] page_of(addr) == page && covers(gpaddr, k, addr)) by {
            lemma_wrap(gpaddr, addr);
            lemma_page(addr);
        }
        assert(!reaches(gpaddr, k, page));
    }
}

/// A primitive is read if and only if all of its bytes are there, and its bytes are
/// then those of the guest, the least significant one first.
pub proof fn law_phys_value<C, T: Primitive>(
    worker: &Worker<C>,
    after: &Worker<C>,
    gpaddr: u64,
    r: Option<T>,
)
    requires
        worker.phys_value_read(*after, gpaddr, r),
        gpaddr + T::spec_size() < 0x1_0000_0000_0000_0000,
    ensures
        r is Some <==> forall|i: int|
            0 <= i < T::spec_size() ==> worker.mem(#[trigger] at(gpaddr, i)) is Some,
        r matches Some(value) ==> forall|i: int|
            0 <= i < T::spec_size() ==> worker.mem(#[trigger] at(gpaddr, i)) == Some(
                le_bytes(value.bits(), T::spec_size())[i],
            ),
        forall|addr: u64| #[trigger] after.mem(addr) == worker.mem(addr),
{
    let n = T::spec_size();
    worker.lemma_present(gpaddr, n);
    let k = worker.present_len(gpaddr, n) as int;
    assert forall|i: int| 0 <= i < n implies #[trigger] at(gpaddr, i) == wrap(gpaddr, i) by {}
    if k < n {
        assert(worker.mem(at(gpaddr, k)) is None);
    }
    match r {
        Some(value) => {
            let bytes = worker.bytes_at(gpaddr, n);
            law_cast_mut_round_trip(bytes, value);
            assert forall|i: int| 0 <= i < n implies worker.mem(#[trigger] at(gpaddr, i)) == Some(
                le_bytes(value.bits(), n)[i],
            ) by {
                assert(worker.mem(wrap(gpaddr, i)) is Some);
                assert(bytes[i] == worker.mem(wrap(gpaddr, i))->0);
            }
        },
        None => {},
    }
    assert forall|addr: u64| #[trigger] after.mem(addr) == worker.mem(addr) by {
        assert(after.page(page_of(addr)) == worker.page(page_of(addr)));
    }
}

/// To read memory copies nothing: a page that is read and was not mapped is shared,
/// cannot be written and is not dirty, and every page that was mapped stays as it was.
/// No page is mapped that is not read.
pub proof fn law_reads_share_pages<C>(worker: &Worker<C>, base: u64, k: int, page: u64)
    requires
        0 <= k,
        base + k < 0x1_0000_0000_0000_0000,
        page % 4096 == 0,
    ensures
        ({
            let before = worker.vm.ept@;
            let after = worker.ept_after_read(base, k);
            &&& before.contains_key(page) ==> after.contains_key(page) && after[page] == before[page]
            &&& !before.contains_key(page) ==> (after.contains_key(page) <==> k > 0 && base < page + 4096
                && page < base + k)
            &&& !before.contains_key(page) && after.contains_key(page) ==> {
                let state = after[page];
                &&& state.copy is None
                &&& !state.dirty
                &&& !state.flags.write
                &&& state.flags.read
            }
        }),
{
    if k > 0 && base < page + 4096 && page < base + k {
        let addr = if base >= page {
            base
        } else {
            page
        };
        lemma_same_page(page, addr);
        assert(distance(base, addr) == addr - base);
        assert(page_of(addr) == page && covers(base, k, addr));
        assert(reaches(base, k, page));
    } else {
        assert forall|addr: u64| !(#[trigger] page_of(addr) == page && covers(base, k, addr)) by {
            lemma_wrap(base, addr);
            lemma_page(addr);
        }
        assert(!reaches(base, k, page));
    }
}

} // verus!
