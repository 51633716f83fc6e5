//! Pages of guest physical memory and runs of addresses over them.
use vstd::prelude::*;

verus! {

/// A guest physical address.
#[derive(Clone, Copy, PartialEq, Eq, Structural, Debug)]
pub struct PhysAddr(pub u64);

/// A guest virtual address.
#[derive(Clone, Copy, PartialEq, Eq, Structural, Debug)]
pub struct VirtAddr(pub u64);

/// One more than the greatest address.
pub open spec fn addr_space() -> int {
    0x1_0000_0000_0000_0000
}

/// The address of the page that `addr` lies in.
pub open spec fn page_of(addr: u64) -> u64 {
    (addr - addr % 4096) as u64
}

/// `page` is the address of a page.
pub open spec fn is_page(page: u64) -> bool {
    page % 4096 == 0
}

/// The address `i` bytes behind `base`, where the address space wraps around.
pub open spec fn wrap(base: u64, i: int) -> u64 {
    ((base + i) % addr_space()) as u64
}

/// How far `addr` lies behind `base`, where the address space wraps around.
pub open spec fn distance(base: u64, addr: u64) -> int {
    (addr - base) % addr_space()
}

/// The first `len` bytes of the run that starts at `base` hold `addr`.
pub open spec fn covers(base: u64, len: int, addr: u64) -> bool {
    distance(base, addr) < len
}

/// The first `len` bytes of the run that starts at `base` reach into `page`.
pub open spec fn reaches(base: u64, len: int, page: u64) -> bool {
    exists|addr: u64| #[trigger] page_of(addr) == page && covers(base, len, addr)
}

/// How many of `remaining` bytes from `addr` on lie on the page of `addr`.
pub open spec fn chunk(addr: u64, remaining: int) -> int {
    if 4096 - addr % 4096 <= remaining {
        4096 - addr % 4096
    } else {
        remaining
    }
}

/// The distance undoes the wrapped addition.
pub proof fn lemma_distance(base: u64, i: int)
    requires
        0 <= i < addr_space(),
    ensures
        distance(base, wrap(base, i)) == i,
{
    if base + i < addr_space() {
    } else {
        assert(base + i - addr_space() == wrap(base, i));
        assert((i - addr_space()) % addr_space() == i);
    }
}

/// The wrapped addition undoes the distance.
pub proof fn lemma_wrap(base: u64, addr: u64)
    ensures
        0 <= distance(base, addr) < addr_space(),
        wrap(base, distance(base, addr)) == addr,
{
    if addr >= base {
    } else {
        assert((addr - base) % addr_space() == addr - base + addr_space());
    }
}

/// Running on from a place in a run is running on in the run itself.
pub proof fn lemma_wrap_wrap(base: u64, i: int, j: int)
    requires
        0 <= i,
        0 <= j,
    ensures
        wrap(wrap(base, i), j) == wrap(base, i + j),
{
    vstd::arithmetic::div_mod::lemma_add_mod_noop(base + i, j, addr_space());
    vstd::arithmetic::div_mod::lemma_mod_twice(base + i, addr_space());
    vstd::arithmetic::div_mod::lemma_add_mod_noop(wrap(base, i) as int, j, addr_space());
}

/// Pages are where the arithmetic puts them.
pub proof fn lemma_page(addr: u64)
    ensures
        is_page(page_of(addr)),
        page_of(addr) <= addr < page_of(addr) + 4096,
        page_of(addr) + 4096 <= addr_space(),
        page_of(page_of(addr)) == page_of(addr),
{
}

/// On one page, an address is found at its offset.
pub proof fn lemma_same_page(page: u64, addr: u64)
    requires
        is_page(page),
        page <= addr < page + 4096,
    ensures
        page_of(addr) == page,
        addr % 4096 == addr - page,
{
}

/// The page of an address.
pub fn page_addr(addr: u64) -> (r: u64)
    ensures
        r == page_of(addr),
{
    assert(addr & !0xfff == addr - addr % 4096) by (bit_vector);
    addr & !0xfff
}

/// The place of an address on its page.
pub fn page_offset(addr: u64) -> (r: u64)
    ensures
        r == addr % 4096,
{
    assert(addr & 0xfff == addr % 4096) by (bit_vector);
    addr & 0xfff
}

} // verus!
