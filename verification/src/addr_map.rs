//! A map from addresses to values, kept sorted by address.
use vstd::prelude::*;

verus! {

/// A map keyed by address. The keys are kept in increasing order, so the entry
/// at or below an address can be found.
pub struct AddrMap<V> {
    pub(crate) keys: Vec<u64>,
    pub(crate) vals: Vec<V>,
}

/// `base` is the greatest key of `m` that is not above `addr`.
pub open spec fn is_floor<V>(m: Map<u64, V>, addr: u64, base: u64) -> bool {
    &&& m.contains_key(base)
    &&& base <= addr
    &&& forall|k: u64| #[trigger] m.contains_key(k) && k <= addr ==> k <= base
}

/// No key of `m` is at or below `addr`.
pub open spec fn has_no_floor<V>(m: Map<u64, V>, addr: u64) -> bool {
    forall|k: u64| #[trigger] m.contains_key(k) ==> k > addr
}

impl<V> View for AddrMap<V> {
    type V = Map<u64, V>;

    open(crate) spec fn view(&self) -> Map<u64, V> {
        Map::new(
            |k: u64| self.keys@.contains(k),
            |k: u64| self.vals@[self.keys@.index_of(k)],
        )
    }
}

impl<V> AddrMap<V> {
    /// There is one value for each key, and the keys increase.
    pub open(crate) spec fn wf(self) -> bool {
        &&& self.keys@.len() == self.vals@.len()
        &&& forall|i: int, j: int|
            0 <= i < j < self.keys@.len() ==> #[trigger] self.keys@[i] < #[trigger] self.keys@[j]
    }

    /// The entry at position `i` is found under its key.
    pub(crate) proof fn lemma_at(self, i: int)
        requires
            self.wf(),
            0 <= i < self.keys@.len(),
        ensures
            self@.contains_key(self.keys@[i]),
            self@[self.keys@[i]] == self.vals@[i],
            self.keys@.index_of(self.keys@[i]) == i,
    {
        assert(self.keys@.contains(self.keys@[i]));
        let j = self.keys@.index_of(self.keys@[i]);
        assert(self.keys@[j] == self.keys@[i]);
    }

    /// A map without entries.
    pub fn new() -> (r: Self)
        ensures
            r.wf(),
            r@ == Map::<u64, V>::empty(),
    {
        let r = AddrMap { keys: Vec::new(), vals: Vec::new() };
        assert(r@ =~= Map::<u64, V>::empty());
        r
    }

    /// How many keys lie below `key`.
    pub(crate) fn position(&self, key: u64) -> (r: usize)
        requires
            self.wf(),
        ensures
            r <= self.keys@.len(),
            forall|i: int| 0 <= i < r ==> #[trigger] self.keys@[i] < key,
            forall|i: int| r <= i < self.keys@.len() ==> #[trigger] self.keys@[i] >= key,
    {
        let mut lo: usize = 0;
        let mut hi: usize = self.keys.len();
        while lo < hi
            invariant
                self.wf(),
                lo <= hi <= self.keys@.len(),
                forall|i: int| 0 <= i < lo ==> #[trigger] self.keys@[i] < key,
                forall|i: int| hi <= i < self.keys@.len() ==> #[trigger] self.keys@[i] >= key,
            decreases hi - lo,
        {
            let mid: usize = lo + (hi - lo) / 2;
            if self.keys[mid] < key {
                lo = mid + 1;
            } else {
                hi = mid;
            }
        }
        lo
    }

    /// The position of `key`, where the map holds it.
    pub(crate) fn find(&self, key: u64) -> (r: Option<usize>)
        requires
            self.wf(),
        ensures
            match r {
                Some(i) => i < self.keys@.len() && self.keys@[i as int] == key
                    && self@.contains_key(key) && self@[key] == self.vals@[i as int],
                None => !self@.contains_key(key),
            },
    {
        let i: usize = self.position(key);
        if i < self.keys.len() && self.keys[i] == key {
            proof {
                self.lemma_at(i as int);
            }
            Some(i)
        } else {
            None
        }
    }

    /// The value under `key`.
    pub fn get(&self, key: u64) -> (r: Option<&V>)
        requires
            self.wf(),
        ensures
            match r {
                Some(v) => self@.contains_key(key) && *v == self@[key],
                None => !self@.contains_key(key),
            },
    {
        match self.find(key) {
            Some(i) => Some(&self.vals[i]),
            None => None,
        }
    }

    /// The entry whose key is the greatest one not above `addr`.
    pub fn floor(&self, addr: u64) -> (r: Option<(u64, &V)>)
        requires
            self.wf(),
        ensures
            match r {
                Some((base, v)) => is_floor(self@, addr, base) && *v == self@[base],
                None => has_no_floor(self@, addr),
            },
    {
        let i: usize = self.position(addr);
        if i < self.keys.len() && self.keys[i] == addr {
            proof {
                self.lemma_at(i as int);
            }
            Some((self.keys[i], &self.vals[i]))
        } else if i > 0 {
            proof {
                self.lemma_at(i - 1);
                assert forall|k: u64| #[trigger] self@.contains_key(k) && k <= addr implies k
                    <= self.keys@[i - 1] by {
                    let j = self.keys@.index_of(k);
                    assert(self.keys@[j] == k);
                }
            }
            Some((self.keys[i - 1], &self.vals[i - 1]))
        } else {
            proof {
                assert forall|k: u64| #[trigger] self@.contains_key(k) implies k > addr by {
                    let j = self.keys@.index_of(k);
                    assert(self.keys@[j] == k);
                }
            }
            None
        }
    }

    /// Puts `value` under `key`, in place of what was there.
    pub fn insert(&mut self, key: u64, value: V)
        requires
            old(self).wf(),
        ensures
            final(self).wf(),
            final(self)@ == old(self)@.insert(key, value),
    {
        let ghost before = *self;
        let i: usize = self.position(key);
        if i < self.keys.len() && self.keys[i] == key {
            self.vals[i] = value;
            proof {
                self.lemma_set(before, i as int, value);
            }
        } else {
            self.keys.insert(i, key);
            self.vals.insert(i, value);
            proof {
                self.lemma_inserted(before, i as int, key, value);
            }
        }
    }

    /// Overwriting the value at a position is an insertion under its key.
    pub(crate) proof fn lemma_set(self, before: Self, i: int, value: V)
        requires
            before.wf(),
            0 <= i < before.keys@.len(),
            self.keys@ == before.keys@,
            self.vals@ == before.vals@.update(i, value),
        ensures
            self.wf(),
            self@ == before@.insert(before.keys@[i], value),
    {
        let key = before.keys@[i];
        before.lemma_at(i);
        assert forall|k: u64| self@.contains_key(k) implies #[trigger] self@[k]
            == before@.insert(key, value)[k] by {
            let j = self.keys@.index_of(k);
            assert(self.keys@[j] == k);
            before.lemma_at(j);
        }
        assert(self@ =~= before@.insert(key, value));
    }

    proof fn lemma_inserted(self, before: Self, i: int, key: u64, value: V)
        requires
            before.wf(),
            0 <= i <= before.keys@.len(),
            forall|j: int| 0 <= j < i ==> #[trigger] before.keys@[j] < key,
            forall|j: int| i <= j < before.keys@.len() ==> #[trigger] before.keys@[j] > key,
            self.keys@ == before.keys@.insert(i, key),
            self.vals@ == before.vals@.insert(i, value),
        ensures
            self.wf(),
            self@ == before@.insert(key, value),
    {
        assert forall|a: int, b: int| 0 <= a < b < self.keys@.len() implies
            #[trigger] self.keys@[a] < #[trigger] self.keys@[b] by {
            let a0 = if a < i { a } else { a - 1 };
            let b0 = if b < i { b } else { b - 1 };
            if a != i {
                assert(self.keys@[a] == before.keys@[a0]);
            }
            if b != i {
                assert(self.keys@[b] == before.keys@[b0]);
            }
        }
        self.lemma_at(i);
        assert forall|k: u64| #[trigger] before@.contains_key(k) implies self@.contains_key(k)
            && self@[k] == before@[k] && k != key by {
            let j = before.keys@.index_of(k);
            before.lemma_at(j);
            let j1 = if j < i { j } else { j + 1 };
            assert(self.keys@[j1] == k);
            self.lemma_at(j1);
            assert(self.vals@[j1] == before.vals@[j]);
        }
        assert forall|k: u64| #[trigger] self@.contains_key(k) && k != key implies
            before@.contains_key(k) by {
            let j1 = self.keys@.index_of(k);
            assert(self.keys@[j1] == k);
            let j = if j1 < i { j1 } else { j1 - 1 };
            assert(before.keys@[j] == k);
        }
        assert(self@ =~= before@.insert(key, value));
    }
}

} // verus!
