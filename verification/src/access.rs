//! Accesses to guest memory by any kind of address.
//!
//! An access to a linear address goes page by page: each page takes a walk of
//! the guest's page tables, which is asked for and answered between the steps
//! of the access.
use vstd::prelude::*;
use crate::page::{
    chunk, lemma_page, lemma_same_page, page_of, page_offset, wrap, PhysAddr, VirtAddr,
};
use crate::primitive::Primitive;
use crate::regs::Register;
use crate::worker::Worker;

verus! {

/// Different types of paging modes.
#[derive(Clone, Copy, PartialEq, Eq, Structural, Debug)]
pub enum PagingMode {
    /// 32-bit paging without PAE.
    Bits32,
    /// 32-bit paging with PAE.
    Bits32Pae,
    /// 4-level 64-bit paging.
    Bits64,
}

/// Different x86 segments.
#[derive(Clone, Copy, PartialEq, Eq, Structural, Debug)]
pub enum Segment {
    Es,
    Ds,
    Fs,
    Gs,
    Ss,
    Cs,
}

/// Different addresses for x86.
#[derive(Clone, Copy, PartialEq, Eq, Structural, Debug)]
pub enum Address {
    /// Physical linear address.
    PhysicalLinear { addr: u64 },
    /// Physical address with a segment base and an offset.
    PhysicalSegOff { seg: Segment, off: u64 },
    /// Virtual address with a segment base, offset, paging mode, and a page
    /// table.
    Virtual { seg: Segment, off: u64, mode: PagingMode, cr3: u64 },
    /// Linear address with a paging mode and a page table.
    Linear { addr: u64, mode: PagingMode, cr3: u64 },
}

/// An access to memory that may be under way.
#[derive(Clone, Copy, PartialEq, Eq, Structural, Debug)]
pub struct MemAccess {
    pub addr: Address,
    /// How many bytes are accessed.
    pub len: usize,
    /// How many bytes have been accessed.
    pub done: usize,
}

/// A walk of the guest's page tables that an access needs.
#[derive(Clone, Copy, PartialEq, Eq, Structural, Debug)]
pub struct WalkRequest {
    pub mode: PagingMode,
    /// The page table.
    pub cr3: u64,
    /// The address to translate.
    pub linear: VirtAddr,
}

/// The answer to a walk.
#[derive(Clone, Copy, PartialEq, Eq, Structural, Debug)]
pub enum Walked {
    /// No walk was made since the last step.
    NotYet,
    /// The address is not mapped.
    Failed,
    /// The address is mapped, at the given offset of the given page.
    To { page: PhysAddr, offset: u64 },
}

/// How an access stands.
#[derive(Clone, Copy, PartialEq, Eq, Structural, Debug)]
pub enum AccessStep {
    /// All bytes have been accessed.
    Done,
    /// The access cannot be completed.
    Failed,
    /// The access goes on once the walk is answered.
    Walk(WalkRequest),
}

/// The register that holds the base of a segment.
pub open spec fn base_register(segment: Segment) -> Register {
    match segment {
        Segment::Es => Register::EsBase,
        Segment::Ds => Register::DsBase,
        Segment::Fs => Register::FsBase,
        Segment::Gs => Register::GsBase,
        Segment::Ss => Register::SsBase,
        Segment::Cs => Register::CsBase,
    }
}

/// `x` has the bit `n`.
pub open spec fn has_bit(x: u64, n: u64) -> bool {
    x & (1u64 << n) != 0
}

/// The paging mode that the control registers select: paging is on if bit 31 of
/// CR0 is set, EFER bit 8 selects long mode, and CR4 bit 5 selects PAE, without
/// which there is no long mode.
pub open spec fn paging_mode_of(regs: Map<Register, u64>) -> Option<PagingMode> {
    let paging = has_bit(regs[Register::Cr0], 31);
    let long_mode = has_bit(regs[Register::Efer], 8);
    let pae = has_bit(regs[Register::Cr4], 5);
    if !paging || (long_mode && !pae) {
        None
    } else if long_mode {
        Some(PagingMode::Bits64)
    } else if pae {
        Some(PagingMode::Bits32Pae)
    } else {
        Some(PagingMode::Bits32)
    }
}

/// Where an access starts, once the segments are resolved.
#[derive(Clone, Copy, PartialEq, Eq, Structural, Debug)]
pub enum Target {
    /// At a physical address.
    Physical { base: u64 },
    /// At a linear address, under a page table.
    Linear { base: u64, mode: PagingMode, cr3: u64 },
}

/// Where an access by an address starts.
pub open spec fn target_of(regs: Map<Register, u64>, addr: Address) -> Target {
    match addr {
        Address::PhysicalLinear { addr } => Target::Physical { base: addr },
        Address::PhysicalSegOff { seg, off } => Target::Physical {
            base: wrap(regs[base_register(seg)], off as int),
        },
        Address::Virtual { seg, off, mode, cr3 } => Target::Linear {
            base: wrap(regs[base_register(seg)], off as int),
            mode,
            cr3,
        },
        Address::Linear { addr, mode, cr3 } => Target::Linear { base: addr, mode, cr3 },
    }
}

/// The run of addresses that a step of an access goes to. By a physical address
/// that is all that is left, by a linear address it ends with the page that the
/// walk led to.
pub open spec fn step_span(regs: Map<Register, u64>, access: MemAccess, walked: Walked) -> Option<
    (u64, nat),
> {
    if access.done >= access.len {
        None
    } else {
        match (target_of(regs, access.addr), walked) {
            (Target::Physical { base }, _) => Some(
                (wrap(base, access.done as int), (access.len - access.done) as nat),
            ),
            (Target::Linear { .. }, Walked::To { page, offset }) => {
                let gpaddr = wrap(page.0, offset as int);
                Some((gpaddr, chunk(gpaddr, access.len - access.done) as nat))
            },
            _ => None,
        }
    }
}

/// How an access stands after a step in which `k` bytes were accessed.
pub open spec fn step_result(
    regs: Map<Register, u64>,
    access: MemAccess,
    walked: Walked,
    k: nat,
) -> AccessStep {
    if access.done + k >= access.len {
        AccessStep::Done
    } else {
        match target_of(regs, access.addr) {
            Target::Physical { .. } => AccessStep::Failed,
            Target::Linear { base, mode, cr3 } => if walked is NotYet || k > 0 {
                AccessStep::Walk(
                    WalkRequest { mode, cr3, linear: VirtAddr(wrap(base, access.done + k)) },
                )
            } else {
                AccessStep::Failed
            },
        }
    }
}

/// The access to `len` bytes at `vaddr` under the page table `cr3`, where the
/// guest pages its memory.
pub open spec fn virtual_access(
    regs: Map<Register, u64>,
    vaddr: VirtAddr,
    len: nat,
    cr3: u64,
) -> Option<MemAccess> {
    match paging_mode_of(regs) {
        Some(mode) => Some(
            MemAccess {
                addr: Address::Linear { addr: vaddr.0, mode, cr3 },
                len: len as usize,
                done: 0,
            },
        ),
        None => None,
    }
}

/// The access to `len` bytes at `vaddr` under the page table that is active.
pub open spec fn current_access(
    regs: Map<Register, u64>,
    vaddr: VirtAddr,
    len: nat,
) -> Option<MemAccess> {
    virtual_access(regs, vaddr, len, regs[Register::Cr3])
}

impl MemAccess {
    /// An access to `len` bytes that is about to start.
    pub fn new(addr: Address, len: usize) -> (r: Self)
        ensures
            r == (MemAccess { addr, len, done: 0 }),
    {
        MemAccess { addr, len, done: 0 }
    }
}

impl<C> Worker<C> {
    /// Get the base address for a given segment.
    pub fn seg_base(&self, segment: Segment) -> (r: u64)
        ensures
            r == self.vm.guest_regs@[base_register(segment)],
    {
        match segment {
            Segment::Es => self.vm.reg(Register::EsBase),
            Segment::Ds => self.vm.reg(Register::DsBase),
            Segment::Fs => self.vm.reg(Register::FsBase),
            Segment::Gs => self.vm.reg(Register::GsBase),
            Segment::Ss => self.vm.reg(Register::SsBase),
            Segment::Cs => self.vm.reg(Register::CsBase),
        }
    }

    /// Gets the current paging mode of the system.
    pub fn paging_mode(&self) -> (r: Option<PagingMode>)
        ensures
            r == paging_mode_of(self.vm.guest_regs@),
    {
        let cr0: u64 = self.vm.reg(Register::Cr0);
        let cr4: u64 = self.vm.reg(Register::Cr4);
        let efer: u64 = self.vm.reg(Register::Efer);
        if cr0 & (1u64 << 31) == 0 {
            // Paging disabled
            None
        } else if efer & (1u64 << 8) == 0 {
            // EFER.LME not set (32-bit mode)
            if cr4 & (1u64 << 5) == 0 {
                // CR4.PAE clear
                Some(PagingMode::Bits32)
            } else {
                // CR4.PAE set
                Some(PagingMode::Bits32Pae)
            }
        } else if cr4 & (1u64 << 5) == 0 {
            // CR4.PAE clear, invalid state
            None
        } else {
            // CR4.PAE set
            Some(PagingMode::Bits64)
        }
    }

    /// Where an access by an address starts.
    fn target(&self, addr: Address) -> (r: Target)
        ensures
            r == target_of(self.vm.guest_regs@, addr),
    {
        match addr {
            Address::PhysicalLinear { addr } => Target::Physical { base: addr },
            Address::PhysicalSegOff { seg, off } => Target::Physical {
                base: self.seg_base(seg).wrapping_add(off),
            },
            Address::Virtual { seg, off, mode, cr3 } => Target::Linear {
                base: self.seg_base(seg).wrapping_add(off),
                mode,
                cr3,
            },
            Address::Linear { addr, mode, cr3 } => Target::Linear { base: addr, mode, cr3 },
        }
    }

    /// The run of addresses that a step of an access goes to.
    fn span(&self, access: &MemAccess, walked: Walked) -> (r: Option<(u64, usize)>)
        ensures
            match r {
                Some((base, n)) => step_span(self.vm.guest_regs@, *access, walked) == Some(
                    (base, n as nat),
                ) && 1 <= n <= access.len - access.done,
                None => step_span(self.vm.guest_regs@, *access, walked) is None,
            },
    {
        if access.done >= access.len {
            return None;
        }
        let rest: usize = access.len - access.done;
        match (self.target(access.addr), walked) {
            (Target::Physical { base }, _) => Some((base.wrapping_add(access.done as u64), rest)),
            (Target::Linear { .. }, Walked::To { page, offset }) => {
                let gpaddr: u64 = page.0.wrapping_add(offset);
                let room: usize = (4096 - page_offset(gpaddr)) as usize;
                let n: usize = if room <= rest {
                    room
                } else {
                    rest
                };
                Some((gpaddr, n))
            },
            _ => None,
        }
    }

    /// How an access stands after a step in which `k` bytes were accessed.
    fn result(&self, access: &MemAccess, walked: Walked, k: usize) -> (r: AccessStep)
        requires
            access.done + k <= access.len,
        ensures
            r == step_result(self.vm.guest_regs@, *access, walked, k as nat),
    {
        let done: usize = access.done + k;
        if done == access.len {
            return AccessStep::Done;
        }
        match self.target(access.addr) {
            Target::Physical { .. } => AccessStep::Failed,
            Target::Linear { base, mode, cr3 } => {
                if matches!(walked, Walked::NotYet) || k > 0 {
                    let linear = VirtAddr(base.wrapping_add(done as u64));
                    AccessStep::Walk(WalkRequest { mode, cr3, linear })
                } else {
                    AccessStep::Failed
                }
            },
        }
    }

    /// What a step of a read does to the worker, the access and the buffer, and
    /// how the access stands after it.
    pub open spec fn read_stepped(
        self,
        after: Self,
        access: MemAccess,
        access_after: MemAccess,
        walked: Walked,
        buf: Seq<u8>,
        buf_after: Seq<u8>,
        step: AccessStep,
    ) -> bool {
        let regs = self.vm.guest_regs@;
        &&& after.same_but_ept(self)
        &&& forall|p: u64| #[trigger] after.page(p) == self.page(p)
        &&& access_after.addr == access.addr
        &&& access_after.len == access.len
        &&& match step_span(regs, access, walked) {
            Some((base, n)) => {
                let k = self.present_len(base, n);
                &&& after.vm.ept@ == self.ept_after_read(base, k as int)
                &&& self.read_into(base, buf, access.done as int, k as int, buf_after)
                &&& access_after.done == access.done + k
                &&& step == step_result(regs, access, walked, k)
            },
            None => {
                &&& after == self
                &&& access_after.done == access.done
                &&& buf_after == buf
                &&& step == step_result(regs, access, walked, 0)
            },
        }
    }

    /// What a step of a write of `data` does to the worker and the access, and how
    /// the access stands after it.
    pub open spec fn write_stepped(
        self,
        after: Self,
        access: MemAccess,
        access_after: MemAccess,
        walked: Walked,
        data: Seq<u8>,
        step: AccessStep,
    ) -> bool {
        let regs = self.vm.guest_regs@;
        &&& after.same_but_ept(self)
        &&& access_after.addr == access.addr
        &&& access_after.len == access.len
        &&& match step_span(regs, access, walked) {
            Some((base, n)) => {
                let k = self.present_len(base, n);
                let part = data.subrange(access.done as int, access.done + n);
                &&& after.vm.ept@ == self.ept_after_write(base, k as int, part)
                &&& forall|addr: u64| #[trigger]
                    after.mem(addr) == self.mem_after_write(base, k as int, part, addr)
                &&& access_after.done == access.done + k
                &&& step == step_result(regs, access, walked, k)
            },
            None => {
                &&& after == self
                &&& access_after.done == access.done
                &&& step == step_result(regs, access, walked, 0)
            },
        }
    }

    /// Whether a step of an access can be made: the pages that it has to look for
    /// are well placed in the snapshot.
    pub fn can_step(&self, access: &MemAccess, walked: Walked) -> (r: bool)
        requires
            self.wf(),
        ensures
            r == (step_span(self.vm.guest_regs@, *access, walked) matches Some((base, n))
                ==> self.span_aligned(base, n)),
    {
        match self.span(access, walked) {
            Some((base, n)) => self.present(base, n).is_some(),
            None => true,
        }
    }

    /// Reads memory using the address of the access provided: goes on with the
    /// access until it is done, fails, or needs a walk of the page tables.
    /// `walked` is the answer to the walk that was asked for last.
    pub fn read_addr(&mut self, access: &mut MemAccess, walked: Walked, buf: &mut [u8]) -> (r:
        AccessStep)
        requires
            old(self).wf(),
            old(access).len == old(buf)@.len(),
            old(access).done <= old(access).len,
            step_span(old(self).vm.guest_regs@, *old(access), walked) matches Some((base, n))
                ==> old(self).span_aligned(base, n),
        ensures
            final(self).wf(),
            old(self).read_stepped(
                *final(self),
                *old(access),
                *final(access),
                walked,
                old(buf)@,
                final(buf)@,
                r,
            ),
    {
        match self.span(access, walked) {
            Some((base, n)) => {
                proof {
                    self.lemma_present(base, n as nat);
                }
                let k: usize = self.read_span(base, buf, access.done, n);
                let step = self.result(access, walked, k);
                access.done = access.done + k;
                step
            },
            None => self.result(access, walked, 0),
        }
    }

    /// Writes memory using the address of the access provided: goes on with the
    /// access until it is done, fails, or needs a walk of the page tables.
    /// `walked` is the answer to the walk that was asked for last.
    pub fn write_addr(&mut self, access: &mut MemAccess, walked: Walked, buf: &[u8]) -> (r:
        AccessStep)
        requires
            old(self).wf(),
            old(access).len == buf@.len(),
            old(access).done <= old(access).len,
            step_span(old(self).vm.guest_regs@, *old(access), walked) matches Some((base, n))
                ==> old(self).span_aligned(base, n),
        ensures
            final(self).wf(),
            old(self).write_stepped(
                *final(self),
                *old(access),
                *final(access),
                walked,
                buf@,
                r,
            ),
    {
        match self.span(access, walked) {
            Some((base, n)) => {
                proof {
                    self.lemma_present(base, n as nat);
                }
                let k: usize = self.write_span(base, buf, access.done, n);
                let step = self.result(access, walked, k);
                access.done = access.done + k;
                step
            },
            None => self.result(access, walked, 0),
        }
    }

    /// Reads the contents at `vaddr` into a `T` which implements `Primitive`
    /// using the current active page table: gives the access that reads it.
    pub fn read_virt<T: Primitive>(&self, vaddr: VirtAddr) -> (r: Option<MemAccess>)
        ensures
            r == current_access(self.vm.guest_regs@, vaddr, T::spec_size()),
    {
        self.read_virt_cr3::<T>(vaddr, self.vm.reg(Register::Cr3))
    }

    /// Reads the contents at `vaddr` into a `T` which implements `Primitive`
    /// using the page table in `cr3`: gives the access that reads it.
    pub fn read_virt_cr3<T: Primitive>(&self, vaddr: VirtAddr, cr3: u64) -> (r: Option<MemAccess>)
        ensures
            r == virtual_access(self.vm.guest_regs@, vaddr, T::spec_size(), cr3),
    {
        let size: usize = T::size();
        self.read_virt_cr3_into(vaddr, size, cr3)
    }

    /// Read the contents of the guest virtual memory at `vaddr` into a buffer of
    /// `len` bytes using the current page table: gives the access that does so.
    ///
    /// Returns `None` if the guest does not page memory.
    pub fn read_virt_into(&self, vaddr: VirtAddr, len: usize) -> (r: Option<MemAccess>)
        ensures
            r == current_access(self.vm.guest_regs@, vaddr, len as nat),
    {
        self.read_virt_cr3_into(vaddr, len, self.vm.reg(Register::Cr3))
    }

    /// Read the contents of the guest virtual memory at `vaddr` into a buffer of
    /// `len` bytes using page table `cr3`: gives the access that does so.
    ///
    /// Returns `None` if the guest does not page memory.
    pub fn read_virt_cr3_into(&self, vaddr: VirtAddr, len: usize, cr3: u64) -> (r: Option<
        MemAccess,
    >)
        ensures
            r == virtual_access(self.vm.guest_regs@, vaddr, len as nat, cr3),
    {
        match self.paging_mode() {
            Some(mode) => Some(MemAccess::new(Address::Linear { addr: vaddr.0, mode, cr3 }, len)),
            None => None,
        }
    }

    /// Write a buffer of `len` bytes to the guest virtual memory at `vaddr` using
    /// page table `cr3`: gives the access that does so.
    ///
    /// Returns `None` if the guest does not page memory.
    pub fn write_virt_cr3_from(&self, vaddr: VirtAddr, len: usize, cr3: u64) -> (r: Option<
        MemAccess,
    >)
        ensures
            r == virtual_access(self.vm.guest_regs@, vaddr, len as nat, cr3),
    {
        match self.paging_mode() {
            Some(mode) => Some(MemAccess::new(Address::Linear { addr: vaddr.0, mode, cr3 }, len)),
            None => None,
        }
    }
}

/// Within a page, memory is there as a whole or not at all: a step of an access
/// by a linear address accesses all bytes of its run or none.
pub proof fn law_step_is_whole<C>(worker: &Worker<C>, gpaddr: u64, n: nat)
    requires
        n <= 4096 - gpaddr % 4096,
    ensures
        worker.present_len(gpaddr, n) == n || worker.present_len(gpaddr, n) == 0,
{
    worker.lemma_present(gpaddr, n);
    let k = worker.present_len(gpaddr, n) as int;
    if 0 < k < n {
        lemma_page(gpaddr);
        assert(wrap(gpaddr, 0) == gpaddr);
        assert(wrap(gpaddr, k) == gpaddr + k);
        lemma_same_page(page_of(gpaddr), wrap(gpaddr, k));
        assert(worker.mem(wrap(gpaddr, 0)) is Some);
    }
}

/// An address with a segment is the address that the base of the segment and the
/// offset add up to: from the same state, a step of a read by the one does what a
/// step of a read by the other does.
pub proof fn law_segment_read<C>(
    worker: &Worker<C>,
    access: MemAccess,
    other: MemAccess,
    walked: Walked,
    buf: Seq<u8>,
    after: &Worker<C>,
    access_after: MemAccess,
    buf_after: Seq<u8>,
    step: AccessStep,
    other_after: &Worker<C>,
    other_access_after: MemAccess,
    other_buf_after: Seq<u8>,
    other_step: AccessStep,
)
    requires
        resolves_to(worker.vm.guest_regs@, access.addr, other.addr),
        access.len == other.len,
        access.done == other.done,
        worker.read_stepped(*after, access, access_after, walked, buf, buf_after, step),
        worker.read_stepped(
            *other_after,
            other,
            other_access_after,
            walked,
            buf,
            other_buf_after,
            other_step,
        ),
    ensures
        step == other_step,
        buf_after == other_buf_after,
        access_after.done == other_access_after.done,
        after.vm.ept@ == other_after.vm.ept@,
        after.same_but_ept(*other_after),
{
    assert(buf_after =~= other_buf_after);
}

/// An address with a segment is the address that the base of the segment and the
/// offset add up to: from the same state, a step of a write by the one does what a
/// step of a write by the other does.
pub proof fn law_segment_write<C>(
    worker: &Worker<C>,
    access: MemAccess,
    other: MemAccess,
    walked: Walked,
    data: Seq<u8>,
    after: &Worker<C>,
    access_after: MemAccess,
    step: AccessStep,
    other_after: &Worker<C>,
    other_access_after: MemAccess,
    other_step: AccessStep,
)
    requires
        resolves_to(worker.vm.guest_regs@, access.addr, other.addr),
        access.len == other.len,
        access.done == other.done,
        worker.write_stepped(*after, access, access_after, walked, data, step),
        worker.write_stepped(*other_after, other, other_access_after, walked, data, other_step),
    ensures
        step == other_step,
        access_after.done == other_access_after.done,
        after.vm.ept@ == other_after.vm.ept@,
        after.same_but_ept(*other_after),
        forall|addr: u64| #[trigger] after.mem(addr) == other_after.mem(addr),
{
}

/// `seg` is an address with a segment, and `flat` is the address of the same kind
/// that the base of the segment and the offset add up to.
pub open spec fn resolves_to(regs: Map<Register, u64>, seg: Address, flat: Address) -> bool {
    match seg {
        Address::PhysicalSegOff { seg, off } => flat == Address::PhysicalLinear {
            addr: wrap(regs[base_register(seg)], off as int),
        },
        Address::Virtual { seg, off, mode, cr3 } => flat == Address::Linear {
            addr: wrap(regs[base_register(seg)], off as int),
            mode,
            cr3,
        },
        _ => false,
    }
}

/// Reading guest physical memory is an access by a physical address: from the
/// same state, both read the same bytes, and both succeed or neither does.
pub proof fn law_physical_read<C>(
    worker: &Worker<C>,
    gpaddr: u64,
    buf: Seq<u8>,
    read: Seq<u8>,
    access: MemAccess,
    walked: Walked,
    after: &Worker<C>,
    access_after: MemAccess,
    buf_after: Seq<u8>,
    step: AccessStep,
)
    requires
        buf.len() == access.len,
        worker.read_into(
            gpaddr,
            buf,
            0,
            worker.present_len(gpaddr, buf.len()) as int,
            read,
        ),
        access.addr == (Address::PhysicalLinear { addr: gpaddr }),
        access.done == 0,
        worker.read_stepped(*after, access, access_after, walked, buf, buf_after, step),
    ensures
        buf_after == read,
        step is Done <==> worker.present_len(gpaddr, buf.len()) == buf.len(),
        step is Failed <==> worker.present_len(gpaddr, buf.len()) < buf.len(),
{
    worker.lemma_present(gpaddr, buf.len());
    assert(wrap(gpaddr, 0) == gpaddr);
    assert(buf_after =~= read);
}

/// Paging is on if bit 31 of CR0 is set. Then EFER bit 8 selects long mode, in which
/// memory is paged with 4 levels, and which does not work without CR4 bit 5, and
/// without long mode CR4 bit 5 selects the wider entries.
pub proof fn law_paging_mode(regs: Map<Register, u64>)
    ensures
        ({
            let paging = (regs[Register::Cr0] / 0x8000_0000) % 2 == 1;
            let long_mode = (regs[Register::Efer] / 0x100) % 2 == 1;
            let pae = (regs[Register::Cr4] / 0x20) % 2 == 1;
            let mode = paging_mode_of(regs);
            &&& mode == Some(PagingMode::Bits64) <==> paging && long_mode && pae
            &&& mode == Some(PagingMode::Bits32Pae) <==> paging && !long_mode && pae
            &&& mode == Some(PagingMode::Bits32) <==> paging && !long_mode && !pae
            &&& mode is None <==> !paging || long_mode && !pae
        }),
{
    let cr0 = regs[Register::Cr0];
    let cr4 = regs[Register::Cr4];
    let efer = regs[Register::Efer];
    assert((cr0 & (1u64 << 31) != 0) == ((cr0 / 0x8000_0000) % 2 == 1)) by (bit_vector);
    assert((efer & (1u64 << 8) != 0) == ((efer / 0x100) % 2 == 1)) by (bit_vector);
    assert((cr4 & (1u64 << 5) != 0) == ((cr4 / 0x20) % 2 == 1)) by (bit_vector);
}

/// An access to virtual memory is one to the linear address, under the page table
/// that was given, of as many bytes as asked for, and from the first one on. It is
/// paged as the control registers say, and there is none where they say that memory
/// is not paged.
pub proof fn law_virtual_access(regs: Map<Register, u64>, vaddr: VirtAddr, len: usize, cr3: u64)
    ensures
        ({
            let paging = (regs[Register::Cr0] / 0x8000_0000) % 2 == 1;
            let long_mode = (regs[Register::Efer] / 0x100) % 2 == 1;
            let pae = (regs[Register::Cr4] / 0x20) % 2 == 1;
            match virtual_access(regs, vaddr, len as nat, cr3) {
                Some(access) => {
                    &&& paging && (pae || !long_mode)
                    &&& access.len == len
                    &&& access.done == 0
                    &&& access.addr == (Address::Linear {
                        addr: vaddr.0,
                        mode: if long_mode {
                            PagingMode::Bits64
                        } else if pae {
                            PagingMode::Bits32Pae
                        } else {
                            PagingMode::Bits32
                        },
                        cr3,
                    })
                },
                None => !paging || long_mode && !pae,
            }
        }),
{
    law_paging_mode(regs);
}

/// The page table that is active is the one that CR3 names, and the mode and the
/// address are those of an access under that table.
pub proof fn law_current_access(regs: Map<Register, u64>, vaddr: VirtAddr, len: usize)
    ensures
        match current_access(regs, vaddr, len as nat) {
            Some(access) => {
                &&& access.len == len
                &&& access.done == 0
                &&& access.addr matches Address::Linear { addr, mode, cr3 } && addr == vaddr.0 && cr3
                    == regs[Register::Cr3] && Some(mode) == paging_mode_of(regs)
            },
            None => paging_mode_of(regs) is None,
        },
{
}

} // verus!
