//! The second-level page table that backs guest physical memory.
use vstd::prelude::*;
use crate::addr_map::AddrMap;
use crate::page::is_page;

verus! {

/// The access rights and the memory type of a mapping.
#[derive(Clone, Copy, PartialEq, Eq, Structural, Debug)]
pub struct EptFlags {
    pub read: bool,
    pub write: bool,
    pub execute: bool,
    pub user_execute: bool,
    pub write_back: bool,
}

/// The rights of a page that was mapped for a read: the page is shared with
/// what the guest was started from, so it cannot be written.
pub open spec fn shared_flags() -> EptFlags {
    EptFlags { read: true, write: false, execute: true, user_execute: true, write_back: true }
}

/// The rights of a page that was mapped for a write.
pub open spec fn private_flags() -> EptFlags {
    EptFlags { read: true, write: true, execute: true, user_execute: true, write_back: true }
}

/// The rights of a shared page that was replaced by a copy on a write. Such a
/// mapping is written without a memory type.
pub open spec fn promoted_flags() -> EptFlags {
    EptFlags { read: true, write: true, execute: true, user_execute: true, write_back: false }
}

/// A mapped page.
pub struct EptPage {
    /// The guest's own copy of the page. Without one the page is shared.
    pub copy: Option<Vec<u8>>,
    pub flags: EptFlags,
    /// The page was handed out for writing since it was last restored.
    pub dirty: bool,
}

/// What a mapped page is.
pub struct PageState {
    pub copy: Option<Seq<u8>>,
    pub flags: EptFlags,
    pub dirty: bool,
}

impl View for EptPage {
    type V = PageState;

    open spec fn view(&self) -> PageState {
        PageState {
            copy: match self.copy {
                Some(v) => Some(v@),
                None => None,
            },
            flags: self.flags,
            dirty: self.dirty,
        }
    }
}

/// A mapped page after it was asked for, for reading or for writing, where
/// `original` is what the page holds as long as the guest has no copy of it.
pub open spec fn touched(page: Option<PageState>, original: Seq<u8>, write: bool) -> PageState {
    match page {
        Some(state) => if !write {
            state
        } else if state.copy is Some {
            PageState { dirty: true, ..state }
        } else {
            PageState { copy: Some(original), flags: promoted_flags(), dirty: true }
        },
        None => if write {
            PageState { copy: Some(original), flags: private_flags(), dirty: true }
        } else {
            PageState { copy: None, flags: shared_flags(), dirty: false }
        },
    }
}

/// `bytes` with those from `at` on replaced by the `n` bytes of `data` from
/// `from` on.
pub open spec fn overwritten(
    bytes: Seq<u8>,
    at: int,
    data: Seq<u8>,
    from: int,
    n: int,
) -> Seq<u8> {
    Seq::new(
        bytes.len(),
        |j: int|
            if at <= j < at + n {
                data[from + (j - at)]
            } else {
                bytes[j]
            },
    )
}

/// Copies `n` bytes of `data` from `from` on over those of `bytes` from `at` on.
pub fn copy_bytes(bytes: &mut [u8], at: usize, data: &[u8], from: usize, n: usize)
    requires
        at + n <= old(bytes)@.len(),
        from + n <= data@.len(),
    ensures
        final(bytes)@ == overwritten(old(bytes)@, at as int, data@, from as int, n as int),
{
    let end: usize = bytes.len();
    let data_end: usize = data.len();
    let mut i: usize = 0;
    while i < n
        invariant
            i <= n,
            at + n <= end == bytes@.len(),
            from + n <= data_end == data@.len(),
            bytes@ =~= overwritten(old(bytes)@, at as int, data@, from as int, i as int),
        decreases n - i,
    {
        bytes[at + i] = data[from + i];
        i = i + 1;
    }
}

/// The pages that are mapped for a guest.
pub struct Ept {
    pub(crate) pages: AddrMap<EptPage>,
}

impl View for Ept {
    type V = Map<u64, PageState>;

    open(crate) spec fn view(&self) -> Map<u64, PageState> {
        self.pages@.map_values(|p: EptPage| p@)
    }
}

/// A page has a copy if and only if it can be written, and a copy is a page long.
pub open spec fn page_state_wf(state: PageState) -> bool {
    &&& state.flags.write == (state.copy is Some)
    &&& state.copy matches Some(c) ==> c.len() == 4096
}

impl Ept {
    pub open(crate) spec fn wf(self) -> bool {
        &&& self.pages.wf()
        &&& forall|p: u64| #[trigger]
            self@.contains_key(p) ==> is_page(p) && page_state_wf(self@[p])
    }

    /// How `page` is mapped.
    pub open spec fn at(self, page: u64) -> Option<PageState> {
        if self@.contains_key(page) {
            Some(self@[page])
        } else {
            None
        }
    }

    /// The guest's own copy of `page`.
    pub open spec fn copy_at(self, page: u64) -> Option<Seq<u8>> {
        if self@.contains_key(page) {
            self@[page].copy
        } else {
            None
        }
    }

    /// No page is mapped.
    pub fn new() -> (r: Self)
        ensures
            r.wf(),
            r@ == Map::<u64, PageState>::empty(),
    {
        let r = Ept { pages: AddrMap::new() };
        assert(r@ =~= Map::<u64, PageState>::empty());
        r
    }

    /// How `page` is mapped.
    pub fn translate(&self, page: u64) -> (r: Option<&EptPage>)
        requires
            self.wf(),
        ensures
            match r {
                Some(entry) => self.at(page) == Some(entry@),
                None => self.at(page) is None,
            },
    {
        self.pages.get(page)
    }

    /// Whether `page` is mapped, and if so, whether it can be written. A mapped
    /// page becomes dirty where it is asked for to be written.
    pub fn translate_dirty(&mut self, page: u64, dirty: bool) -> (r: Option<bool>)
        requires
            old(self).wf(),
        ensures
            final(self).wf(),
            match r {
                Some(writable) => old(self)@.contains_key(page) && writable
                    == old(self)@[page].flags.write && final(self)@ == old(self)@.insert(
                    page,
                    PageState { dirty: old(self)@[page].dirty || dirty, ..old(self)@[page] },
                ),
                None => !old(self)@.contains_key(page) && *final(self) == *old(self),
            },
    {
        match self.pages.find(page) {
            Some(i) => {
                let ghost before = *self;
                let ghost state = self@[page];
                let writable: bool = self.pages.vals[i].flags.write;
                if dirty {
                    let entry = &mut self.pages.vals[i];
                    entry.dirty = true;
                }
                proof {
                    let entry = self.pages.vals@[i as int];
                    assert(self.pages.vals@ =~= before.pages.vals@.update(i as int, entry));
                    self.pages.lemma_set(before.pages, i as int, entry);
                    assert(self@ =~= before@.insert(
                        page,
                        PageState { dirty: state.dirty || dirty, ..state },
                    ));
                }
                Some(writable)
            },
            None => None,
        }
    }

    /// Maps `page`, with a copy of its own or shared.
    pub fn map_page(&mut self, page: u64, copy: Option<Vec<u8>>, flags: EptFlags, dirty: bool)
        requires
            old(self).wf(),
            is_page(page),
            flags.write == (copy is Some),
            copy matches Some(v) ==> v@.len() == 4096,
        ensures
            final(self).wf(),
            final(self)@ == old(self)@.insert(
                page,
                PageState {
                    copy: match copy {
                        Some(v) => Some(v@),
                        None => None,
                    },
                    flags,
                    dirty,
                },
            ),
    {
        let ghost before = *self;
        let entry = EptPage { copy, flags, dirty };
        let ghost state = entry@;
        self.pages.insert(page, entry);
        proof {
            assert(self@ =~= before@.insert(page, state));
        }
    }

    /// Writes `n` bytes of `data` from `from` on into the copy of `page`, from
    /// `at` on.
    pub fn store(&mut self, page: u64, at: usize, data: &[u8], from: usize, n: usize)
        requires
            old(self).wf(),
            old(self).copy_at(page) is Some,
            at + n <= 4096,
            from + n <= data@.len(),
        ensures
            final(self).wf(),
            final(self)@ == old(self)@.insert(
                page,
                PageState {
                    copy: Some(
                        overwritten(
                            old(self)@[page].copy->0,
                            at as int,
                            data@,
                            from as int,
                            n as int,
                        ),
                    ),
                    ..old(self)@[page]
                },
            ),
    {
        match self.pages.find(page) {
            Some(i) => {
                let ghost before = *self;
                let ghost state = self@[page];
                assert(page_state_wf(state));
                let entry = &mut self.pages.vals[i];
                match &mut entry.copy {
                    Some(bytes) => {
                        copy_bytes(bytes.as_mut_slice(), at, data, from, n);
                    },
                    None => {},
                }
                proof {
                    let entry = self.pages.vals@[i as int];
                    assert(self.pages.vals@ =~= before.pages.vals@.update(i as int, entry));
                    self.pages.lemma_set(before.pages, i as int, entry);
                    assert(self@ =~= before@.insert(page, entry@));
                }
            },
            None => {},
        }
    }

    /// The guest's own copy of `page`.
    pub fn copy_of(&self, page: u64) -> (r: Option<&[u8]>)
        requires
            self.wf(),
        ensures
            match r {
                Some(s) => self.copy_at(page) == Some(s@),
                None => self.copy_at(page) is None,
            },
    {
        match self.translate(page) {
            Some(entry) => match &entry.copy {
                Some(v) => Some(v.as_slice()),
                None => None,
            },
            None => None,
        }
    }
}

/// Asking for a page again changes nothing, and asking for it to be read after
/// it was asked for to be written neither.
pub proof fn law_touching_again(
    page: Option<PageState>,
    original: Seq<u8>,
    first: bool,
    second: bool,
)
    requires
        second ==> first,
    ensures
        touched(Some(touched(page, original, first)), original, second) == touched(
            page,
            original,
            first,
        ),
{
}

/// A page that is asked for to be written becomes a dirty copy that can be
/// written. A page that is asked for to be read becomes neither.
pub proof fn law_touching(page: Option<PageState>, original: Seq<u8>)
    requires
        page matches Some(state) ==> page_state_wf(state),
        original.len() == 4096,
    ensures
        ({
            let written = touched(page, original, true);
            &&& page_state_wf(written)
            &&& written.flags.write
            &&& written.dirty
            &&& written.copy == Some(
                if page is Some && page->0.copy is Some {
                    page->0.copy->0
                } else {
                    original
                },
            )
        }),
        ({
            let read = touched(page, original, false);
            &&& page_state_wf(read)
            &&& read.copy is Some <==> page is Some && page->0.copy is Some
            &&& read.dirty <==> page is Some && page->0.dirty
        }),
{
}

/// Every page that is mapped can be read and executed. It can be written if and only
/// if it is the guest's own, and its memory type is lost where a shared page became
/// the guest's own.
pub proof fn law_rights(page: Option<PageState>, original: Seq<u8>, write: bool)
    ensures
        ({
            let state = touched(page, original, write);
            &&& page is None ==> state.flags.read && state.flags.execute && state.flags.user_execute
                && state.flags.write_back && state.flags.write == write && state.dirty == write
            &&& page matches Some(before) ==> {
                &&& !write ==> state == before
                &&& write && before.copy is Some ==> state.flags == before.flags && state.copy
                    == before.copy
                &&& write && before.copy is None ==> state.flags.read && state.flags.execute
                    && state.flags.user_execute && state.flags.write && !state.flags.write_back
                    && state.copy == Some(original)
            }
        }),
{
}

} // verus!
