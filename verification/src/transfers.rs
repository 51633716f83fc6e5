//! Whole reads and writes, over all of their steps.
use vstd::prelude::*;
use crate::access::{
    law_step_is_whole, law_virtual_access, step_span, target_of, virtual_access, AccessStep, Address,
    MemAccess, PagingMode, Target, WalkRequest, Walked,
};
use crate::page::{covers, distance, lemma_distance, lemma_wrap, wrap, VirtAddr};
use crate::regs::Register;
use crate::worker::Worker;

verus! {

/// A step of an access: what it started from, and what it led to.
pub struct Transfer<C> {
    pub worker: Worker<C>,
    pub after: Worker<C>,
    pub access: MemAccess,
    pub access_after: MemAccess,
    pub walked: Walked,
    pub buf: Seq<u8>,
    pub buf_after: Seq<u8>,
    pub step: AccessStep,
}

impl<C> Transfer<C> {
    /// The run of addresses that the step goes to.
    pub open spec fn span(self) -> Option<(u64, nat)> {
        step_span(self.worker.vm.guest_regs@, self.access, self.walked)
    }

    /// The address of the byte number `i` of the access, if the step accesses it.
    pub open spec fn place(self, i: int) -> Option<u64> {
        if self.access.done <= i < self.access_after.done {
            Some(wrap((self.span()->0).0, i - self.access.done))
        } else {
            None
        }
    }

    /// The buffer fits the access.
    pub open spec fn fits(self) -> bool {
        &&& self.buf.len() == self.access.len
        &&& self.access.done <= self.access.len
    }

    /// The step is one of a read.
    pub open spec fn reads(self) -> bool {
        &&& self.fits()
        &&& self.worker.read_stepped(
            self.after,
            self.access,
            self.access_after,
            self.walked,
            self.buf,
            self.buf_after,
            self.step,
        )
    }

    /// The step is one of a write of what the buffer holds.
    pub open spec fn writes(self) -> bool {
        &&& self.fits()
        &&& self.buf_after == self.buf
        &&& self.worker.write_stepped(
            self.after,
            self.access,
            self.access_after,
            self.walked,
            self.buf,
            self.step,
        )
    }

    /// The byte that the step could not access does not exist: either the walk
    /// failed, or there is no memory where the byte would be.
    pub open spec fn misses(self) -> bool {
        ||| self.walked is Failed
        ||| self.span() matches Some((base, _)) && self.worker.mem(
            wrap(base, self.access_after.done - self.access.done),
        ) is None
    }

    /// `next` is the step after this one. In between, the walk that was asked for
    /// was made, which may map memory, but does not change it.
    pub open spec fn leads_to(self, next: Self) -> bool {
        &&& self.step is Walk
        &&& next.walked !is NotYet
        &&& next.access == self.access_after
        &&& next.buf == self.buf_after
        &&& next.worker.same_but_ept(self.after)
        &&& forall|addr: u64| #[trigger] next.worker.mem(addr) == self.after.mem(addr)
    }

    proof fn lemma_step(&self)
        requires
            self.reads() || self.writes(),
        ensures
            self.after.same_but_ept(self.worker),
            self.access_after.addr == self.access.addr,
            self.access_after.len == self.access.len,
            self.access.done <= self.access_after.done <= self.access.len,
            self.access.done < self.access_after.done ==> self.span() is Some,
            self.step is Done <==> self.access_after.done == self.access.len,
            self.step is Failed ==> self.misses(),
            self.step is Walk ==> asks_for(
                self.worker.vm.guest_regs@,
                self.access.addr,
                self.step,
                self.access_after.done as int,
            ),
            forall|i: int|
                #![trigger self.place(i)]
                self.place(i) matches Some(a) ==> self.worker.mem(a) is Some,
    {
        match self.span() {
            Some((base, n)) => {
                self.worker.lemma_present(base, n);
            },
            None => {},
        }
    }
}

/// The steps of an access to `len` bytes by `addr`, from its first one on.
pub open spec fn is_transfer<C>(steps: Seq<Transfer<C>>, addr: Address, len: usize) -> bool {
    &&& steps.len() > 0
    &&& steps[0].access == MemAccess { addr, len, done: 0 }
    &&& steps[0].walked is NotYet
    &&& forall|i: int| 0 < i < steps.len() ==> steps[i - 1].leads_to(#[trigger] steps[i])
}

/// The steps of a read of `len` bytes by `addr`.
pub open spec fn is_read<C>(steps: Seq<Transfer<C>>, addr: Address, len: usize) -> bool {
    &&& is_transfer(steps, addr, len)
    &&& forall|i: int| 0 <= i < steps.len() ==> (#[trigger] steps[i]).reads()
}

/// The steps of a write of `len` bytes by `addr`.
pub open spec fn is_write<C>(steps: Seq<Transfer<C>>, addr: Address, len: usize) -> bool {
    &&& is_transfer(steps, addr, len)
    &&& forall|i: int| 0 <= i < steps.len() ==> (#[trigger] steps[i]).writes()
}

/// The address at which the first `n` steps accessed the byte number `i` of an
/// access, if they did.
pub open spec fn place<C>(steps: Seq<Transfer<C>>, n: int, i: int) -> Option<u64>
    decreases n,
{
    if n <= 0 {
        None
    } else if steps[n - 1].place(i) is Some {
        steps[n - 1].place(i)
    } else {
        place(steps, n - 1, i)
    }
}

/// How many bytes all steps accessed.
pub open spec fn accessed<C>(steps: Seq<Transfer<C>>) -> int {
    steps.last().access_after.done as int
}

/// An access by `addr` asks for the walk of its byte number `i`.
pub open spec fn asks_for(regs: Map<Register, u64>, addr: Address, step: AccessStep, i: int) -> bool {
    match target_of(regs, addr) {
        Target::Linear { base, mode, cr3 } => step == AccessStep::Walk(
            WalkRequest { mode, cr3, linear: VirtAddr(wrap(base, i)) },
        ),
        Target::Physical { .. } => false,
    }
}

/// Each walk that is asked for is that of the byte that comes next.
pub open spec fn walks_in_turn<C>(steps: Seq<Transfer<C>>, addr: Address) -> bool {
    forall|i: int|
        0 < i < steps.len() ==> asks_for(
            steps[0].worker.vm.guest_regs@,
            addr,
            steps[i - 1].step,
            (#[trigger] steps[i]).access.done as int,
        )
}

/// What holds of the steps of any access up to the `n`th one.
proof fn lemma_transfer<C>(steps: Seq<Transfer<C>>, addr: Address, len: usize, n: int)
    requires
        is_read(steps, addr, len) || is_write(steps, addr, len),
        0 < n <= steps.len(),
    ensures
        steps[n - 1].access.addr == addr,
        steps[n - 1].access.len == len,
        steps[n - 1].buf.len() == len,
        steps[n - 1].access_after.done <= len,
        steps[n - 1].worker.same_but_ept(steps[0].worker),
        steps[n - 1].after.same_but_ept(steps[0].worker),
        forall|i: int|
            #![trigger place(steps, n, i)]
            place(steps, n, i) is Some <==> 0 <= i < steps[n - 1].access_after.done,
    decreases n,
{
    let s = steps[n - 1];
    if n > 1 {
        lemma_transfer(steps, addr, len, n - 1);
        assert(steps[n - 2].leads_to(steps[n - 1]));
    }
    s.lemma_step();
    assert forall|i: int|
        #![trigger place(steps, n, i)]
        place(steps, n, i) is Some <==> 0 <= i < s.access_after.done by {
        assert(place(steps, n - 1, i) is Some <==> 0 <= i < s.access.done);
    }
}

proof fn lemma_walks<C>(steps: Seq<Transfer<C>>, addr: Address, len: usize)
    requires
        is_read(steps, addr, len) || is_write(steps, addr, len),
    ensures
        walks_in_turn(steps, addr),
{
    assert forall|i: int| 0 < i < steps.len() implies asks_for(
        steps[0].worker.vm.guest_regs@,
        addr,
        steps[i - 1].step,
        (#[trigger] steps[i]).access.done as int,
    ) by {
        assert(steps[i - 1].leads_to(steps[i]));
        lemma_transfer(steps, addr, len, i);
        steps[i - 1].lemma_step();
    }
}

/// What the first `n` steps of a read have read.
proof fn lemma_read<C>(steps: Seq<Transfer<C>>, addr: Address, len: usize, n: int)
    requires
        is_read(steps, addr, len),
        0 < n <= steps.len(),
    ensures
        steps[n - 1].buf_after.len() == len,
        forall|a: u64| #[trigger] steps[n - 1].worker.mem(a) == steps[0].worker.mem(a),
        forall|a: u64| #[trigger] steps[n - 1].after.mem(a) == steps[0].worker.mem(a),
        forall|i: int|
            #![trigger steps[n - 1].buf_after[i]]
            0 <= i < steps[n - 1].access_after.done ==> steps[0].worker.mem(
                place(steps, n, i)->0,
            ) == Some(steps[n - 1].buf_after[i]),
        forall|i: int|
            #![trigger steps[n - 1].buf_after[i]]
            steps[n - 1].access_after.done <= i < len ==> steps[n - 1].buf_after[i]
                == steps[0].buf[i],
    decreases n,
{
    let s = steps[n - 1];
    lemma_transfer(steps, addr, len, n);
    if n > 1 {
        lemma_transfer(steps, addr, len, n - 1);
        lemma_read(steps, addr, len, n - 1);
        assert(steps[n - 2].leads_to(steps[n - 1]));
        assert forall|a: u64| #[trigger] s.worker.mem(a) == steps[0].worker.mem(a) by {
            assert(steps[n - 2].after.mem(a) == steps[0].worker.mem(a));
        }
    }
    assert(s.reads());
    s.lemma_step();
    assert forall|a: u64| #[trigger] s.after.mem(a) == steps[0].worker.mem(a) by {
        assert(s.worker.mem(a) == steps[0].worker.mem(a));
    }
    assert forall|i: int|
        #![trigger s.buf_after[i]]
        0 <= i < s.access_after.done implies steps[0].worker.mem(place(steps, n, i)->0) == Some(
        s.buf_after[i],
    ) by {
        if i < s.access.done {
            assert(s.place(i) is None);
            assert(s.buf_after[i] == s.buf[i]);
            assert(s.buf[i] == steps[n - 2].buf_after[i]);
        } else {
            assert(s.place(i) is Some);
            assert(s.worker.mem(s.place(i)->0) is Some);
        }
    }
    assert forall|i: int|
        #![trigger s.buf_after[i]]
        s.access_after.done <= i < len implies s.buf_after[i] == steps[0].buf[i] by {
        assert(s.buf_after[i] == s.buf[i]);
        if n > 1 {
            assert(s.buf[i] == steps[n - 2].buf_after[i]);
        }
    }
}

/// A read, by whatever address, fills the buffer with the bytes of the guest
/// where the walks led, in order. Where it fails, it has read exactly the bytes
/// before the first one that is missing, and leaves the rest of the buffer alone.
/// It changes nothing that the guest sees.
pub proof fn law_whole_read<C>(steps: Seq<Transfer<C>>, addr: Address, len: usize)
    requires
        is_read(steps, addr, len),
    ensures
        accessed(steps) <= len,
        steps.last().step is Done <==> accessed(steps) == len,
        steps.last().step is Failed ==> steps.last().misses(),
        walks_in_turn(steps, addr),
        steps.last().buf_after.len() == len,
        forall|i: int|
            #![trigger steps.last().buf_after[i]]
            0 <= i < accessed(steps) ==> (place(steps, steps.len() as int, i) matches Some(a)
                && steps[0].worker.mem(a) == Some(steps.last().buf_after[i])),
        forall|i: int|
            #![trigger steps.last().buf_after[i]]
            accessed(steps) <= i < len ==> steps.last().buf_after[i] == steps[0].buf[i],
        forall|a: u64| #[trigger] steps.last().after.mem(a) == steps[0].worker.mem(a),
        steps.last().after.same_but_ept(steps[0].worker),
{
    let n = steps.len() as int;
    lemma_transfer(steps, addr, len, n);
    lemma_walks(steps, addr, len);
    lemma_read(steps, addr, len, n);
    steps.last().lemma_step();
    assert forall|i: int|
        #![trigger steps.last().buf_after[i]]
        0 <= i < accessed(steps) implies (place(steps, n, i) matches Some(a)
        && steps[0].worker.mem(a) == Some(steps.last().buf_after[i])) by {
        assert(place(steps, n, i) is Some);
    }
}

/// None of the first `n` steps accessed `a`.
pub open spec fn untouched<C>(steps: Seq<Transfer<C>>, n: int, a: u64) -> bool {
    forall|i: int| #[trigger] place(steps, n, i) != Some(a)
}

/// No byte behind the byte number `i` was accessed by the first `n` steps at the
/// address of that one.
pub open spec fn is_last_at<C>(steps: Seq<Transfer<C>>, n: int, i: int) -> bool {
    forall|j: int| i < j ==> #[trigger] place(steps, n, j) != place(steps, n, i)
        || place(steps, n, j) is None
}

/// A step of a write puts its bytes where it goes, and changes nothing else.
proof fn lemma_write_step<C>(s: Transfer<C>)
    requires
        s.writes(),
    ensures
        forall|i: int|
            #![trigger s.place(i)]
            s.place(i) matches Some(a) ==> s.after.mem(a) == Some(s.buf[i]),
        forall|a: u64|
            (forall|i: int| #[trigger] s.place(i) != Some(a)) ==> #[trigger] s.after.mem(a)
                == s.worker.mem(a),
        forall|a: u64| #[trigger] s.after.mem(a) is Some <==> s.worker.mem(a) is Some,
{
    match s.span() {
        Some((base, n)) => {
            let k = s.worker.present_len(base, n) as int;
            let done = s.access.done as int;
            let part = s.buf.subrange(done, done + n);
            s.worker.lemma_present(base, n);
            s.lemma_step();
            assert forall|i: int|
                #![trigger s.place(i)]
                s.place(i) matches Some(a) ==> s.after.mem(a) == Some(s.buf[i]) by {
                if s.place(i) is Some {
                    lemma_distance(base, i - done);
                    assert(part[i - done] == s.buf[i]);
                }
            }
            assert forall|a: u64|
                #![trigger s.after.mem(a)]
                ((forall|i: int| #[trigger] s.place(i) != Some(a)) ==> s.after.mem(a)
                    == s.worker.mem(a)) && (s.after.mem(a) is Some <==> s.worker.mem(a) is Some) by {
                lemma_wrap(base, a);
                if covers(base, k, a) {
                    assert(s.place(done + distance(base, a)) == Some(a));
                    assert(s.worker.mem(wrap(base, distance(base, a))) is Some);
                }
            }
        },
        None => {},
    }
}

/// What the first `n` steps of a write have written.
#[verifier::spinoff_prover]
proof fn lemma_write<C>(steps: Seq<Transfer<C>>, addr: Address, len: usize, n: int)
    requires
        is_write(steps, addr, len),
        0 < n <= steps.len(),
    ensures
        steps[n - 1].buf == steps[0].buf,
        forall|a: u64| #[trigger]
            steps[n - 1].worker.mem(a) is Some <==> steps[0].worker.mem(a) is Some,
        forall|a: u64| #[trigger]
            steps[n - 1].after.mem(a) is Some <==> steps[0].worker.mem(a) is Some,
        forall|a: u64|
            untouched(steps, n, a) ==> #[trigger] steps[n - 1].after.mem(a)
                == steps[0].worker.mem(a),
        forall|i: int|
            #![trigger place(steps, n, i)]
            place(steps, n, i) is Some && is_last_at(steps, n, i) ==> steps[n - 1].after.mem(
                place(steps, n, i)->0,
            ) == Some(steps[0].buf[i]),
    decreases n,
{
    let s = steps[n - 1];
    assert(s.writes());
    s.lemma_step();
    lemma_write_step(s);
    lemma_transfer(steps, addr, len, n);
    if n > 1 {
        let prev = steps[n - 2];
        lemma_transfer(steps, addr, len, n - 1);
        lemma_write(steps, addr, len, n - 1);
        assert(prev.writes());
        assert(prev.leads_to(s));
        assert forall|a: u64| #[trigger] s.worker.mem(a) is Some <==> steps[0].worker.mem(
            a,
        ) is Some by {
            assert(prev.after.mem(a) is Some <==> steps[0].worker.mem(a) is Some);
        }
    }
    assert forall|a: u64| #[trigger] s.after.mem(a) is Some <==> steps[0].worker.mem(a) is Some by {
        assert(s.worker.mem(a) is Some <==> steps[0].worker.mem(a) is Some);
    }
    assert forall|a: u64| untouched(steps, n, a) implies #[trigger] s.after.mem(a)
        == steps[0].worker.mem(a) by {
        assert forall|i: int| #[trigger] s.place(i) != Some(a) by {
            assert(place(steps, n, i) != Some(a));
        }
        if n > 1 {
            assert forall|i: int| #[trigger] place(steps, n - 1, i) != Some(a) by {
                assert(place(steps, n, i) != Some(a));
                assert(place(steps, n - 1, i) is Some ==> s.place(i) is None);
            }
            assert(untouched(steps, n - 1, a));
            assert(steps[n - 2].after.mem(a) == steps[0].worker.mem(a));
            assert(s.worker.mem(a) == steps[n - 2].after.mem(a));
        }
    }
    assert forall|i: int|
        #![trigger place(steps, n, i)]
        place(steps, n, i) is Some && is_last_at(steps, n, i) implies s.after.mem(
        place(steps, n, i)->0,
    ) == Some(steps[0].buf[i]) by {
        let a = place(steps, n, i)->0;
        if s.place(i) is None {
            lemma_old_place(steps, addr, len, n, i);
        }
    }
}

/// What an earlier step of a write has written stays, where the `n`th step does
/// not write over it.
proof fn lemma_old_place<C>(steps: Seq<Transfer<C>>, addr: Address, len: usize, n: int, i: int)
    requires
        is_write(steps, addr, len),
        0 < n <= steps.len(),
        place(steps, n, i) is Some,
        is_last_at(steps, n, i),
        steps[n - 1].place(i) is None,
        n > 1 ==> (forall|i: int|
            #![trigger place(steps, n - 1, i)]
            place(steps, n - 1, i) is Some && is_last_at(steps, n - 1, i)
                ==> steps[n - 2].after.mem(place(steps, n - 1, i)->0) == Some(steps[0].buf[i])),
    ensures
        steps[n - 1].after.mem(place(steps, n, i)->0) == Some(steps[0].buf[i]),
{
    let s = steps[n - 1];
    let a = place(steps, n, i)->0;
    assert(s.writes());
    assert(n > 1);
    let prev = steps[n - 2];
    assert(prev.leads_to(s));
    lemma_transfer(steps, addr, len, n - 1);
    lemma_write_step(s);
    assert(place(steps, n - 1, i) == Some(a));
    assert(i < s.access.done);
    assert forall|j: int| #[trigger] s.place(j) != Some(a) by {
        if s.place(j) == Some(a) {
            assert(place(steps, n, j) == Some(a));
        }
    }
    assert forall|j: int| i < j implies #[trigger] place(steps, n - 1, j) != place(
        steps,
        n - 1,
        i,
    ) || place(steps, n - 1, j) is None by {
        if place(steps, n - 1, j) is Some {
            assert(s.place(j) is None);
            assert(place(steps, n, j) == place(steps, n - 1, j));
        }
    }
    assert(is_last_at(steps, n - 1, i));
    assert(prev.after.mem(a) == Some(steps[0].buf[i]));
    assert(s.worker.mem(a) == prev.after.mem(a));
}

/// A write, by whatever address, puts the bytes of the buffer where the walks led,
/// in order: of the bytes that go to one place, the last one stays. All other
/// memory stays as it was, and so does all else, the master among it. Where the
/// write fails, it has written exactly the bytes before the first one that is
/// missing.
pub proof fn law_whole_write<C>(steps: Seq<Transfer<C>>, addr: Address, len: usize)
    requires
        is_write(steps, addr, len),
    ensures
        accessed(steps) <= len,
        steps.last().step is Done <==> accessed(steps) == len,
        steps.last().step is Failed ==> steps.last().misses(),
        walks_in_turn(steps, addr),
        forall|i: int|
            #![trigger place(steps, steps.len() as int, i)]
            place(steps, steps.len() as int, i) is Some <==> 0 <= i < accessed(steps),
        forall|i: int|
            #![trigger place(steps, steps.len() as int, i)]
            0 <= i < accessed(steps) && is_last_at(steps, steps.len() as int, i)
                ==> steps.last().after.mem(place(steps, steps.len() as int, i)->0) == Some(
                steps[0].buf[i],
            ),
        forall|a: u64|
            untouched(steps, steps.len() as int, a) ==> #[trigger] steps.last().after.mem(a)
                == steps[0].worker.mem(a),
        forall|a: u64| #[trigger]
            steps.last().after.mem(a) is Some <==> steps[0].worker.mem(a) is Some,
        steps.last().after.same_but_ept(steps[0].worker),
{
    let n = steps.len() as int;
    lemma_transfer(steps, addr, len, n);
    lemma_walks(steps, addr, len);
    lemma_write(steps, addr, len, n);
    steps.last().lemma_step();
}

/// A write, whether or not it is completed, changes no byte of the guest but those
/// that it accessed, none of its registers, and no byte of the master or, where it
/// has no copy of its own, of another worker of that master.
pub proof fn law_write_is_isolated<C>(
    steps: Seq<Transfer<C>>,
    addr: Address,
    len: usize,
    other: &Worker<C>,
)
    requires
        is_write(steps, addr, len),
        steps[0].worker.master is Some,
        other.master == steps[0].worker.master,
    ensures
        forall|a: u64|
            untouched(steps, steps.len() as int, a) ==> #[trigger] steps.last().after.mem(a)
                == steps[0].worker.mem(a),
        steps.last().after.vm.guest_regs == steps[0].worker.vm.guest_regs,
        steps.last().after.master == steps[0].worker.master,
        forall|p: u64| #[trigger]
            other.vm.ept.copy_at(p) is None ==> other.page(p) == steps[0].worker.master->0.page(p),
{
    law_whole_write(steps, addr, len);
}

/// The walks of both accesses are answered alike.
pub open spec fn same_walks<C>(a: Seq<Transfer<C>>, b: Seq<Transfer<C>>) -> bool {
    forall|i: int|
        0 <= i < a.len() && i < b.len() ==> (#[trigger] a[i]).walked == (#[trigger] b[i]).walked
}

/// No two bytes were accessed at the same address.
pub open spec fn is_injective<C>(steps: Seq<Transfer<C>>) -> bool {
    forall|i: int, j: int|
        i < j && #[trigger] place(steps, steps.len() as int, i) is Some ==> place(
            steps,
            steps.len() as int,
            i,
        ) != #[trigger] place(steps, steps.len() as int, j)
}

/// Where there is the same memory, there are the same bytes before the first one
/// that is missing.
proof fn lemma_same_present<C>(a: &Worker<C>, b: &Worker<C>, base: u64, len: nat)
    requires
        forall|x: u64| #[trigger] a.mem(x) is Some <==> b.mem(x) is Some,
    ensures
        a.present_len(base, len) == b.present_len(base, len),
    decreases len,
{
    if len > 0 {
        lemma_same_present(a, b, base, (len - 1) as nat);
        assert(a.mem(wrap(base, len - 1)) is Some <==> b.mem(wrap(base, len - 1)) is Some);
    }
}

/// A read whose walks are answered like those of a write goes the way of the
/// write.
#[verifier::spinoff_prover]
#[verifier::rlimit(40)]
proof fn lemma_same_way<C>(
    writes: Seq<Transfer<C>>,
    reads: Seq<Transfer<C>>,
    addr: Address,
    len: usize,
    n: int,
)
    requires
        is_write(writes, addr, len),
        is_read(reads, addr, len),
        same_walks(writes, reads),
        reads[0].worker.vm.guest_regs@ == writes[0].worker.vm.guest_regs@,
        forall|a: u64| #[trigger]
            reads[0].worker.mem(a) is Some <==> writes[0].worker.mem(a) is Some,
        0 < n <= writes.len(),
        n <= reads.len(),
    ensures
        reads[n - 1].access == writes[n - 1].access,
        reads[n - 1].access_after == writes[n - 1].access_after,
        reads[n - 1].step == writes[n - 1].step,
        forall|i: int| #[trigger] place(reads, n, i) == place(writes, n, i),
    decreases n,
{
    let r = reads[n - 1];
    let w = writes[n - 1];
    lemma_transfer(writes, addr, len, n);
    lemma_transfer(reads, addr, len, n);
    lemma_write(writes, addr, len, n);
    lemma_read(reads, addr, len, n);
    if n > 1 {
        lemma_same_way(writes, reads, addr, len, n - 1);
        assert(reads[n - 2].leads_to(r));
        assert(writes[n - 2].leads_to(w));
    }
    assert(w.writes());
    assert(r.reads());
    assert(w.walked == r.walked);
    assert(r.span() == w.span());
    assert forall|a: u64| #[trigger] r.worker.mem(a) is Some <==> w.worker.mem(a) is Some by {
        assert(reads[0].worker.mem(a) is Some <==> writes[0].worker.mem(a) is Some);
    }
    match r.span() {
        Some((base, k)) => {
            lemma_same_present(&r.worker, &w.worker, base, k);
        },
        None => {},
    }
    assert forall|i: int| #[trigger] place(reads, n, i) == place(writes, n, i) by {
        assert(place(reads, n - 1, i) == place(writes, n - 1, i));
        assert(r.place(i) == w.place(i));
    }
}

/// What is written by an address, of whatever kind, is read back by it: if a write
/// was completed, no two of its bytes went to one place, and the walks of the read
/// are answered like those of the write, then the read is completed, too, and the
/// buffer holds what was written.
#[verifier::spinoff_prover]
#[verifier::rlimit(40)]
pub proof fn law_read_back_by_address<C>(
    writes: Seq<Transfer<C>>,
    reads: Seq<Transfer<C>>,
    addr: Address,
    len: usize,
)
    requires
        is_write(writes, addr, len),
        writes.last().step is Done,
        is_injective(writes),
        is_read(reads, addr, len),
        reads.last().step !is Walk,
        same_walks(writes, reads),
        reads[0].worker.same_but_ept(writes.last().after),
        forall|a: u64| #[trigger] reads[0].worker.mem(a) == writes.last().after.mem(a),
    ensures
        reads.last().step is Done,
        reads.last().buf_after == writes[0].buf,
{
    let n = writes.len() as int;
    law_whole_write(writes, addr, len);
    law_whole_read(reads, addr, len);
    assert forall|a: u64| #[trigger] reads[0].worker.mem(a) is Some <==> writes[0].worker.mem(
        a,
    ) is Some by {
        assert(writes.last().after.mem(a) is Some <==> writes[0].worker.mem(a) is Some);
    }
    if reads.len() < n {
        lemma_same_way(writes, reads, addr, len, reads.len() as int);
        assert(writes[reads.len() - 1].leads_to(writes[reads.len() as int]));
    } else {
        lemma_same_way(writes, reads, addr, len, n);
        if reads.len() > n {
            assert(reads[n - 1].leads_to(reads[n]));
        }
    }
    assert(reads.len() == n);
    assert(writes[0].writes());
    assert forall|i: int| 0 <= i < len implies #[trigger] reads.last().buf_after[i]
        == writes[0].buf[i] by {
        assert(place(reads, n, i) == place(writes, n, i));
        assert(is_last_at(writes, n, i));
        assert(writes.last().after.mem(place(writes, n, i)->0) == Some(writes[0].buf[i]));
    }
    assert(reads.last().buf_after =~= writes[0].buf);
}

/// Every walk that an access to virtual memory asks for is one under the page table
/// that was given and in the paging mode that the control registers select, and of
/// the address that lies as far behind the first one as bytes were accessed.
pub proof fn law_virtual_walks<C>(
    steps: Seq<Transfer<C>>,
    access: MemAccess,
    vaddr: VirtAddr,
    cr3: u64,
    i: int,
    request: WalkRequest,
)
    requires
        is_read(steps, access.addr, access.len) || is_write(steps, access.addr, access.len),
        virtual_access(steps[0].worker.vm.guest_regs@, vaddr, access.len as nat, cr3) == Some(access),
        0 <= i < steps.len(),
        steps[i].step == AccessStep::Walk(request),
    ensures
        request.cr3 == cr3,
        request.linear.0 == (vaddr.0 + steps[i].access_after.done) % 0x1_0000_0000_0000_0000,
        ({
            let regs = steps[0].worker.vm.guest_regs@;
            let long_mode = (regs[Register::Efer] / 0x100) % 2 == 1;
            let pae = (regs[Register::Cr4] / 0x20) % 2 == 1;
            &&& (regs[Register::Cr0] / 0x8000_0000) % 2 == 1
            &&& request.mode == if long_mode {
                PagingMode::Bits64
            } else if pae {
                PagingMode::Bits32Pae
            } else {
                PagingMode::Bits32
            }
        }),
{
    lemma_transfer(steps, access.addr, access.len, i + 1);
    assert(steps[i].reads() || steps[i].writes());
    steps[i].lemma_step();
    law_virtual_access(steps[0].worker.vm.guest_regs@, vaddr, access.len, cr3);
}

/// The address goes through page tables.
pub open spec fn is_paged(addr: Address) -> bool {
    addr is Virtual || addr is Linear
}

/// How many bytes an access goes on for from `gpaddr` on: up to the end of the page,
/// or of the access.
pub open spec fn on_page(gpaddr: u64, rest: int) -> int {
    if rest < 4096 - gpaddr % 4096 {
        rest
    } else {
        4096 - gpaddr % 4096
    }
}

/// Where a walk led to memory, a step of a read reads on from exactly there, up to
/// the end of the page. Where it led to no memory, or nowhere, the access fails, and
/// as long as there was no walk, it asks for one. What it does not read it leaves
/// alone.
pub proof fn law_walk_is_followed_by_read<C>(t: Transfer<C>)
    requires
        t.reads(),
        is_paged(t.access.addr),
        t.access.done < t.access.len,
    ensures
        match t.walked {
            Walked::To { page, offset } => {
                let gpaddr = ((page.0 + offset) % 0x1_0000_0000_0000_0000) as u64;
                let n = on_page(gpaddr, t.access.len - t.access.done);
                if t.worker.mem(gpaddr) is Some {
                    &&& t.access_after.done == t.access.done + n
                    &&& forall|i: int|
                        0 <= i < n ==> t.worker.mem((gpaddr + i) as u64) == Some(
                            #[trigger] t.buf_after[t.access.done + i],
                        )
                    &&& forall|i: int|
                        0 <= i < t.buf.len() && !(t.access.done <= i < t.access.done + n)
                            ==> #[trigger] t.buf_after[i] == t.buf[i]
                } else {
                    t.step is Failed && t.buf_after == t.buf && t.access_after == t.access
                }
            },
            Walked::Failed => t.step is Failed && t.buf_after == t.buf && t.access_after == t.access,
            Walked::NotYet => t.step is Walk && t.buf_after == t.buf && t.access_after == t.access,
        },
{
    match t.walked {
        Walked::To { page, offset } => {
            let gpaddr = ((page.0 + offset) % 0x1_0000_0000_0000_0000) as u64;
            let n = on_page(gpaddr, t.access.len - t.access.done);
            lemma_step_on_page(t, gpaddr, n);
            if t.worker.mem(gpaddr) is Some {
                assert forall|i: int| 0 <= i < n implies t.worker.mem((gpaddr + i) as u64) == Some(
                    #[trigger] t.buf_after[t.access.done + i],
                ) by {
                    assert(t.worker.mem(wrap(gpaddr, i)) is Some);
                    assert(wrap(gpaddr, i) == gpaddr + i);
                }
            } else {
                assert(t.buf_after =~= t.buf);
            }
        },
        _ => {},
    }
}

proof fn lemma_step_on_page<C>(t: Transfer<C>, gpaddr: u64, n: int)
    requires
        t.fits(),
        is_paged(t.access.addr),
        t.access.done < t.access.len,
        t.walked matches Walked::To { page, offset } && gpaddr == (page.0 + offset)
            % 0x1_0000_0000_0000_0000,
        n == on_page(gpaddr, t.access.len - t.access.done),
    ensures
        t.span() == Some((gpaddr, n as nat)),
        1 <= n <= 4096 - gpaddr % 4096,
        t.worker.mem(gpaddr) is Some ==> t.worker.present_len(gpaddr, n as nat) == n,
        t.worker.mem(gpaddr) is None ==> t.worker.present_len(gpaddr, n as nat) == 0,
        forall|i: int|
            #![trigger wrap(gpaddr, i)]
            0 <= i < n ==> wrap(gpaddr, i) == gpaddr + i && (t.worker.mem(gpaddr) is Some
                ==> t.worker.mem(wrap(gpaddr, i)) is Some),
{
    law_step_is_whole(&t.worker, gpaddr, n as nat);
    t.worker.lemma_present(gpaddr, n as nat);
    assert(wrap(gpaddr, 0) == gpaddr);
    if t.worker.mem(gpaddr) is Some {
        t.worker.lemma_present_at_least(gpaddr, n as nat, 0);
        if t.worker.present_len(gpaddr, n as nat) == 0 {
            assert(t.worker.mem(wrap(gpaddr, 0)) is None);
        }
    } else {
        if t.worker.present_len(gpaddr, n as nat) > 0 {
            assert(t.worker.mem(wrap(gpaddr, 0)) is Some);
        }
    }
}

/// Where a walk led to memory, a step of a write writes on from exactly there, up to
/// the end of the page, and changes no other byte. Where it led to no memory, or
/// nowhere, the access fails, and as long as there was no walk, it asks for one.
#[verifier::spinoff_prover]
#[verifier::rlimit(40)]
pub proof fn law_walk_is_followed_by_write<C>(t: Transfer<C>, addr: u64)
    requires
        t.writes(),
        is_paged(t.access.addr),
        t.access.done < t.access.len,
    ensures
        match t.walked {
            Walked::To { page, offset } => {
                let gpaddr = ((page.0 + offset) % 0x1_0000_0000_0000_0000) as u64;
                let n = on_page(gpaddr, t.access.len - t.access.done);
                if t.worker.mem(gpaddr) is Some {
                    &&& t.access_after.done == t.access.done + n
                    &&& t.after.mem(addr) == if gpaddr <= addr < gpaddr + n {
                        Some(t.buf[t.access.done + (addr - gpaddr)])
                    } else {
                        t.worker.mem(addr)
                    }
                } else {
                    t.step is Failed && t.access_after == t.access && t.after.mem(addr)
                        == t.worker.mem(addr)
                }
            },
            Walked::Failed => t.step is Failed && t.access_after == t.access && t.after == t.worker,
            Walked::NotYet => t.step is Walk && t.access_after == t.access && t.after == t.worker,
        },
{
    match t.walked {
        Walked::To { page, offset } => {
            let gpaddr = ((page.0 + offset) % 0x1_0000_0000_0000_0000) as u64;
            let n = on_page(gpaddr, t.access.len - t.access.done);
            lemma_step_on_page(t, gpaddr, n);
            lemma_write_step(t);
            lemma_wrap(gpaddr, addr);
            if gpaddr <= addr < gpaddr + n {
                assert(wrap(gpaddr, addr - gpaddr) == addr);
                assert(t.worker.mem(gpaddr) is Some ==> t.place(t.access.done + (addr - gpaddr))
                    == Some(addr));
            } else {
                assert forall|i: int| #[trigger] t.place(i) != Some(addr) by {
                    if t.place(i) is Some {
                        assert(wrap(gpaddr, i - t.access.done) == gpaddr + (i - t.access.done));
                    }
                }
            }
        },
        _ => {},
    }
}

/// A read by a physical address reads the bytes one behind the other from that
/// address on, over the end of the address space to its start, up to the first one
/// that is missing, and asks for no walk.
pub proof fn law_physical_read_in_order<C>(t: Transfer<C>, addr: u64)
    requires
        t.reads(),
        t.access.addr == (Address::PhysicalLinear { addr }),
        t.access.done == 0,
    ensures
        t.step !is Walk,
        t.step is Done <==> t.access_after.done == t.access.len,
        forall|i: int|
            0 <= i < t.access_after.done ==> t.worker.mem(
                ((addr + i) % 0x1_0000_0000_0000_0000) as u64,
            ) == Some(#[trigger] t.buf_after[i]),
        forall|i: int|
            t.access_after.done <= i < t.buf.len() ==> #[trigger] t.buf_after[i] == t.buf[i],
        t.access_after.done < t.access.len ==> t.worker.mem(
            ((addr + t.access_after.done) % 0x1_0000_0000_0000_0000) as u64,
        ) is None,
{
    t.lemma_step();
    if t.access.len > 0 {
        assert(wrap(addr, 0) == addr);
        t.worker.lemma_present(addr, t.access.len as nat);
        assert forall|i: int| 0 <= i < t.access_after.done implies t.worker.mem(
            ((addr + i) % 0x1_0000_0000_0000_0000) as u64,
        ) == Some(#[trigger] t.buf_after[i]) by {
            assert(t.worker.mem(wrap(addr, i)) is Some);
        }
    }
}

/// A write by a physical address writes the bytes one behind the other from that
/// address on, over the end of the address space to its start, up to the first one
/// that is missing, changes no other byte, and asks for no walk.
pub proof fn law_physical_write_in_order<C>(t: Transfer<C>, addr: u64, other: u64)
    requires
        t.writes(),
        t.access.addr == (Address::PhysicalLinear { addr }),
        t.access.done == 0,
    ensures
        t.step !is Walk,
        t.step is Done <==> t.access_after.done == t.access.len,
        t.after.mem(other) == {
            let i = (other - addr) % 0x1_0000_0000_0000_0000;
            if i < t.access_after.done {
                Some(t.buf[i])
            } else {
                t.worker.mem(other)
            }
        },
        t.access_after.done < t.access.len ==> t.worker.mem(
            ((addr + t.access_after.done) % 0x1_0000_0000_0000_0000) as u64,
        ) is None,
{
    t.lemma_step();
    lemma_write_step(t);
    lemma_wrap(addr, other);
    if t.access.len > 0 {
        assert(wrap(addr, 0) == addr);
        t.worker.lemma_present(addr, t.access.len as nat);
        let i = distance(addr, other);
        if i < t.access_after.done {
            assert(t.place(i) == Some(other));
        } else {
            assert forall|k: int| #[trigger] t.place(k) != Some(other) by {
                if t.place(k) is Some {
                    lemma_distance(addr, k);
                }
            }
        }
    }
}

} // verus!
