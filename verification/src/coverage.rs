//! Coverage that was observed.
use vstd::prelude::*;
use std::sync::Arc;
use crate::addr_map::AddrMap;

verus! {

/// A place in the guest that was executed.
pub struct CoverageRecord {
    /// The module that the place belongs to.
    pub module: Option<Arc<String>>,
    /// The offset into the module, or the address if there is none.
    pub offset: u64,
}

/// The text of a name.
pub open spec fn name_of(name: Option<Arc<String>>) -> Option<Seq<char>> {
    match name {
        Some(text) => Some(text@),
        None => None,
    }
}

impl View for CoverageRecord {
    type V = (Option<Seq<char>>, u64);

    open spec fn view(&self) -> (Option<Seq<char>>, u64) {
        (name_of(self.module), self.offset)
    }
}

/// A set of places, found by their offsets.
pub struct CoverageSet {
    /// The modules in which an offset was executed.
    pub(crate) modules: AddrMap<Vec<Option<Arc<String>>>>,
}

/// `names` holds the name `text`.
pub open spec fn holds_name(names: Seq<Option<Arc<String>>>, text: Option<Seq<char>>) -> bool {
    exists|i: int| 0 <= i < names.len() && name_of(#[trigger] names[i]) == text
}

impl View for CoverageSet {
    type V = Set<(Option<Seq<char>>, u64)>;

    open(crate) spec fn view(&self) -> Set<(Option<Seq<char>>, u64)> {
        Set::new(
            |r: (Option<Seq<char>>, u64)|
                self.modules@.contains_key(r.1) && holds_name(self.modules@[r.1]@, r.0),
        )
    }
}

/// Whether two names are the same text.
fn same_text(a: &String, b: &String) -> (r: bool)
    ensures
        r == (a@ == b@),
{
    *a == *b
}

/// Whether two names are the same.
fn same_name(a: &Option<Arc<String>>, b: &Option<Arc<String>>) -> (r: bool)
    ensures
        r == (name_of(*a) == name_of(*b)),
{
    match (a, b) {
        (Some(x), Some(y)) => same_text(x, y),
        (None, None) => true,
        _ => false,
    }
}

/// Whether `names` holds the name `name`.
fn contains_name(names: &Vec<Option<Arc<String>>>, name: &Option<Arc<String>>) -> (r: bool)
    ensures
        r == holds_name(names@, name_of(*name)),
{
    let mut i: usize = 0;
    while i < names.len()
        invariant
            i <= names@.len(),
            forall|j: int| 0 <= j < i ==> name_of(#[trigger] names@[j]) != name_of(*name),
        decreases names@.len() - i,
    {
        if same_name(&names[i], name) {
            assert(name_of(names@[i as int]) == name_of(*name));
            return true;
        }
        i = i + 1;
    }
    false
}

impl CoverageSet {
    pub open(crate) spec fn wf(self) -> bool {
        self.modules.wf()
    }

    /// No place was executed.
    pub fn new() -> (r: Self)
        ensures
            r.wf(),
            r@ == Set::<(Option<Seq<char>>, u64)>::empty(),
    {
        let r = CoverageSet { modules: AddrMap::new() };
        assert(r@ =~= Set::<(Option<Seq<char>>, u64)>::empty());
        r
    }

    /// Adds a place. Says whether it is new.
    pub fn insert(&mut self, record: &CoverageRecord) -> (r: bool)
        requires
            old(self).wf(),
        ensures
            final(self).wf(),
            r == !old(self)@.contains(record@),
            final(self)@ == old(self)@.insert(record@),
    {
        let ghost before = *self;
        let ghost key = record@;
        match self.modules.find(record.offset) {
            Some(i) => {
                if contains_name(&self.modules.vals[i], &record.module) {
                    assert(self@ =~= before@.insert(key));
                    false
                } else {
                    let ghost names = self.modules.vals@[i as int]@;
                    let name: Option<Arc<String>> = clone_name(&record.module);
                    let entry = &mut self.modules.vals[i];
                    entry.push(name);
                    proof {
                        let entry = self.modules.vals@[i as int];
                        assert(self.modules.vals@ =~= before.modules.vals@.update(i as int, entry));
                        self.modules.lemma_set(before.modules, i as int, entry);
                        assert(entry@ == names.push(name));
                        lemma_holds_push(names, name);
                        assert(self@ =~= before@.insert(key));
                    }
                    true
                }
            },
            None => {
                let name: Option<Arc<String>> = clone_name(&record.module);
                let mut names: Vec<Option<Arc<String>>> = Vec::new();
                names.push(name);
                self.modules.insert(record.offset, names);
                proof {
                    lemma_holds_push(Seq::empty(), name);
                    assert(names@ =~= Seq::<Option<Arc<String>>>::empty().push(name));
                    assert(self@ =~= before@.insert(key));
                }
                true
            },
        }
    }
}

/// Another reference to the same name.
pub fn clone_name(name: &Option<Arc<String>>) -> (r: Option<Arc<String>>)
    ensures
        r == *name,
{
    match name {
        Some(text) => Some(text.clone()),
        None => None,
    }
}

proof fn lemma_holds_push(names: Seq<Option<Arc<String>>>, name: Option<Arc<String>>)
    ensures
        forall|text: Option<Seq<char>>| #[trigger]
            holds_name(names.push(name), text) <==> holds_name(names, text) || text == name_of(name),
{
    let more = names.push(name);
    assert forall|text: Option<Seq<char>>| #[trigger] holds_name(more, text) <==> holds_name(
        names,
        text,
    ) || text == name_of(name) by {
        if holds_name(names, text) {
            let i = choose|i: int| 0 <= i < names.len() && name_of(#[trigger] names[i]) == text;
            assert(name_of(more[i]) == text);
        }
        if text == name_of(name) {
            assert(name_of(more[names.len() as int]) == text);
        }
        if holds_name(more, text) {
            let i = choose|i: int| 0 <= i < more.len() && name_of(#[trigger] more[i]) == text;
            if i < names.len() {
                assert(name_of(names[i]) == text);
            }
        }
    }
}

} // verus!
