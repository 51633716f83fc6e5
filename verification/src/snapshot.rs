//! The memory image of a snapshot.
use vstd::prelude::*;
use vstd::slice::slice_subrange;
use crate::addr_map::{is_floor, AddrMap};
use crate::page::is_page;

verus! {

/// A region of guest physical memory and where its bytes stand in the image.
#[derive(Clone, Copy)]
pub struct PhysRange {
    /// Where the region's first byte stands in the image.
    pub offset: u64,
    /// The last address of the region.
    pub end: u64,
}

/// The bytes of a snapshot, and which guest physical memory they hold.
pub struct NetBacking {
    pub memory: Vec<u8>,
    /// The regions, by their first address.
    pub phys_ranges: AddrMap<PhysRange>,
}

/// Where the byte of guest physical memory at `addr` stands in the image, by the
/// region that starts at `base`.
pub open spec fn place_in(ranges: Map<u64, PhysRange>, base: u64, addr: u64) -> int {
    ranges[base].offset + (addr - base)
}

impl NetBacking {
    pub open spec fn wf(self) -> bool {
        self.phys_ranges.wf()
    }

    /// The region that starts last at or below `page` reaches up to it.
    pub open spec fn in_region(self, page: u64, base: u64) -> bool {
        is_floor(self.phys_ranges@, page, base) && page <= self.phys_ranges@[base].end
    }

    /// Where `page` stands in the image, if a region holds it.
    pub open spec fn place(self, page: u64) -> Option<int> {
        if exists|base: u64| self.in_region(page, base) {
            Some(
                place_in(
                    self.phys_ranges@,
                    choose|base: u64| self.in_region(page, base),
                    page,
                ),
            )
        } else {
            None
        }
    }

    /// What the snapshot holds of `page`.
    pub open spec fn page(self, page: u64) -> Option<Seq<u8>> {
        match self.place(page) {
            Some(at) => if at + 4096 <= self.memory@.len() {
                Some(self.memory@.subrange(at, at + 4096))
            } else {
                None
            },
            None => None,
        }
    }

    /// If a region holds `page`, then the page starts at a page of the image.
    pub open spec fn is_aligned(self, page: u64) -> bool {
        self.place(page) matches Some(at) ==> at < 0x1_0000_0000_0000_0000 ==> at % 4096 == 0
    }

    proof fn lemma_region(&self, page: u64, base: u64)
        requires
            is_floor(self.phys_ranges@, page, base),
        ensures
            forall|b: u64| #[trigger] self.in_region(page, b) ==> b == base,
    {
        assert forall|b: u64| #[trigger] self.in_region(page, b) implies b == base by {
            assert(self.phys_ranges@.contains_key(b));
            assert(self.phys_ranges@.contains_key(base));
        }
    }

    /// Where `page` stands in the image, if a region holds it and the place can
    /// be counted.
    fn locate(&self, page: u64) -> (r: Option<u64>)
        requires
            self.wf(),
        ensures
            match r {
                Some(at) => self.place(page) == Some(at as int),
                None => self.place(page) matches Some(at) ==> at >= 0x1_0000_0000_0000_0000,
            },
    {
        match self.phys_ranges.floor(page) {
            Some((base, range)) => {
                proof {
                    self.lemma_region(page, base);
                    assert(self.in_region(page, base) == (page <= range.end));
                }
                if page > range.end {
                    return None;
                }
                assert(place_in(self.phys_ranges@, base, page) == range.offset + (page - base));
                range.offset.checked_add(page - base)
            },
            None => None,
        }
    }

    /// What the snapshot holds of `page`.
    pub fn get(&self, page: u64) -> (r: Option<&[u8]>)
        requires
            self.wf(),
            is_page(page),
            self.is_aligned(page),
        ensures
            match r {
                Some(s) => self.page(page) == Some(s@),
                None => self.page(page) is None,
            },
    {
        let len: usize = self.memory.len();
        match self.locate(page) {
            Some(at) => {
                if len < 4096 || at > (len - 4096) as u64 {
                    return None;
                }
                let start: usize = at as usize;
                Some(slice_subrange(self.memory.as_slice(), start, start + 4096))
            },
            None => None,
        }
    }

    /// Whether `page`, if a region holds it, starts at a page of the image.
    pub fn aligned(&self, page: u64) -> (r: bool)
        requires
            self.wf(),
        ensures
            r == self.is_aligned(page),
    {
        match self.locate(page) {
            Some(at) => at % 4096 == 0,
            None => true,
        }
    }
}

/// A page of a region is found where the region stands in the image, counted
/// from the region's first page.
pub proof fn law_region_page(backing: &NetBacking, base: u64, page: u64)
    requires
        is_floor(backing.phys_ranges@, page, base),
        page <= backing.phys_ranges@[base].end,
    ensures
        ({
            let at = backing.phys_ranges@[base].offset + (page - base);
            backing.page(page) == if at + 4096 <= backing.memory@.len() {
                Some(backing.memory@.subrange(at, at + 4096))
            } else {
                None
            }
        }),
{
    backing.lemma_region(page, base);
    assert(backing.in_region(page, base));
}

/// Outside of the regions there is no memory.
pub proof fn law_no_region_no_page(backing: &NetBacking, page: u64)
    requires
        forall|b: u64| #[trigger]
            backing.phys_ranges@.contains_key(b) ==> page < b || page > backing.phys_ranges@[b].end,
    ensures
        backing.page(page) is None,
{
    assert forall|b: u64| !backing.in_region(page, b) by {
        if backing.in_region(page, b) {
            assert(backing.phys_ranges@.contains_key(b));
        }
    }
}

/// Where all regions start at pages, of memory and of the image, all pages do.
pub proof fn law_aligned_regions(backing: &NetBacking, page: u64)
    requires
        is_page(page),
        forall|b: u64| #[trigger]
            backing.phys_ranges@.contains_key(b) ==> b % 4096 == 0
                && backing.phys_ranges@[b].offset % 4096 == 0,
    ensures
        backing.is_aligned(page),
{
    if exists|b: u64| backing.in_region(page, b) {
        let b = choose|b: u64| backing.in_region(page, b);
        assert(backing.phys_ranges@.contains_key(b));
    }
}

} // verus!
