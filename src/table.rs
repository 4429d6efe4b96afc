//! A finite map kept as a vector of entries with distinct keys.
//!
//! Ledger mappings read as "zero when absent"; the table itself only answers
//! whether a key is present and with which value.
use vstd::prelude::*;

verus! {

/// Keys that can be compared in executable code.
pub trait KeyEq: Copy {
    fn key_eq(&self, other: &Self) -> (r: bool)
        ensures
            r == (*self == *other),
    ;
}

#[verifier::reject_recursive_types(K)]
pub struct Table<K, V> {
    entries: Vec<(K, V)>,
    map: Ghost<Map<K, V>>,
}

impl<K, V> View for Table<K, V> {
    type V = Map<K, V>;

    closed spec fn view(&self) -> Map<K, V> {
        self.map@
    }
}

impl<K: KeyEq, V: Copy> Table<K, V> {
    /// The entries in the order in which their keys were first set.
    pub closed spec fn entries(&self) -> Seq<(K, V)> {
        self.entries@
    }

    /// Keys are distinct, and the entries hold exactly the map's contents.
    pub open spec fn wf(&self) -> bool {
        &&& forall|i: int, j: int|
            0 <= i < j < self.entries().len() ==> #[trigger] self.entries()[i].0
                != #[trigger] self.entries()[j].0
        &&& forall|i: int|
            0 <= i < self.entries().len() ==> self@.contains_key(#[trigger] self.entries()[i].0)
                && self@[self.entries()[i].0] == self.entries()[i].1
        &&& forall|k: K| #[trigger]
            self@.contains_key(k) ==> exists|i: int|
                0 <= i < self.entries().len() && #[trigger] self.entries()[i].0 == k
    }

    /// Where `k` stands among the entries, if it is present.
    pub closed spec fn index_of(&self, k: K) -> int {
        choose|i: int| 0 <= i < self.entries().len() && self.entries()[i].0 == k
    }

    pub proof fn lemma_index_of(&self, k: K)
        requires
            self.wf(),
            self@.contains_key(k),
        ensures
            0 <= self.index_of(k) < self.entries().len(),
            self.entries()[self.index_of(k)] == (k, self@[k]),
    {
    }

    pub fn new() -> (r: Self)
        ensures
            r.wf(),
            r@ == Map::<K, V>::empty(),
            r.entries() == Seq::<(K, V)>::empty(),
    {
        Table { entries: Vec::new(), map: Ghost(Map::empty()) }
    }

    /// The position of `k` among the entries, if it is present.
    fn find(&self, k: &K) -> (r: Option<usize>)
        requires
            self.wf(),
        ensures
            r.is_some() == self@.contains_key(*k),
            r.is_some() ==> r.unwrap() == self.index_of(*k),
    {
        let mut i: usize = 0;
        while i < self.entries.len()
            invariant
                self.wf(),
                0 <= i <= self.entries@.len(),
                forall|j: int| 0 <= j < i ==> self.entries@[j].0 != *k,
            decreases self.entries@.len() - i,
        {
            if self.entries[i].0.key_eq(k) {
                proof {
                    let c = self.index_of(*k);
                    assert(self.entries@[c].0 == *k);
                }
                return Some(i);
            }
            i = i + 1;
        }
        None
    }

    /// The value under `k`, if any.
    pub fn get(&self, k: &K) -> (r: Option<V>)
        requires
            self.wf(),
        ensures
            r == (if self@.contains_key(*k) {
                Some(self@[*k])
            } else {
                None
            }),
    {
        match self.find(k) {
            Some(i) => {
                proof {
                    self.lemma_index_of(*k);
                }
                Some(self.entries[i].1)
            },
            None => None,
        }
    }

    /// Puts `v` under `k`, in place of any value there.
    pub fn set(&mut self, k: K, v: V)
        requires
            old(self).wf(),
        ensures
            final(self).wf(),
            final(self)@ == old(self)@.insert(k, v),
            final(self).entries() == (if old(self)@.contains_key(k) {
                old(self).entries().update(old(self).index_of(k), (k, v))
            } else {
                old(self).entries().push((k, v))
            }),
    {
        let ghost prev = *self;
        match self.find(&k) {
            Some(i) => {
                proof {
                    prev.lemma_index_of(k);
                }
                self.entries.set(i, (k, v));
                self.map = Ghost(self.map@.insert(k, v));
                assert forall|q: K| #[trigger] self@.contains_key(q) implies exists|j: int|
                    0 <= j < self.entries().len() && #[trigger] self.entries()[j].0 == q by {
                    if q != k {
                        let j = choose|j: int| 0 <= j < prev.entries().len() && prev.entries()[j].0 == q;
                        assert(self.entries()[j].0 == q);
                    } else {
                        assert(self.entries()[i as int].0 == q);
                    }
                }
            },
            None => {
                self.entries.push((k, v));
                self.map = Ghost(self.map@.insert(k, v));
                let ghost n: int = prev.entries().len() as int;
                assert forall|q: K| #[trigger] self@.contains_key(q) implies exists|j: int|
                    0 <= j < self.entries().len() && #[trigger] self.entries()[j].0 == q by {
                    if q != k {
                        let j = choose|j: int| 0 <= j < prev.entries().len() && prev.entries()[j].0 == q;
                        assert(self.entries()[j].0 == q);
                    } else {
                        assert(self.entries()[n].0 == q);
                    }
                }
            },
        }
    }
}

} // verus!
