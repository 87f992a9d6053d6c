//! The durable-map facade: a key/value store whose model is a map from byte
//! strings to byte strings. `set` is observable by every later `get` of the
//! same key, and `snapshot` lists every pair exactly once.

use vstd::prelude::*;
use vstd::map::*;
use crate::bytestr::bytes_eq;

verus! {

/// A key/value store held as an association list with pairwise-distinct keys.
pub struct Store {
    pub entries: Vec<(Vec<u8>, Vec<u8>)>,
}

impl View for Store {
    type V = Map<Seq<u8>, Seq<u8>>;

    open spec fn view(&self) -> Map<Seq<u8>, Seq<u8>> {
        Map::new(
            |k: Seq<u8>| exists|i: int| 0 <= i < self.entries@.len() && self.entries@[i].0@ == k,
            |k: Seq<u8>|
                {
                    let i = choose|i: int|
                        0 <= i < self.entries@.len() && self.entries@[i].0@ == k;
                    self.entries@[i].1@
                },
        )
    }
}

impl Store {
    /// All stored keys are pairwise distinct.
    pub open spec fn wf(&self) -> bool {
        forall|i: int, j: int|
            0 <= i < j < self.entries@.len() ==> self.entries@[i].0@ != self.entries@[j].0@
    }

    /// With distinct keys, the entry at index `i` gives the map's value there.
    proof fn lemma_entry_is_view(&self, i: int)
        requires
            self.wf(),
            0 <= i < self.entries@.len(),
        ensures
            self@.contains_key(self.entries@[i].0@),
            self@[self.entries@[i].0@] == self.entries@[i].1@,
    {
        let k = self.entries@[i].0@;
        assert(self@.contains_key(k));
        let j = choose|j: int| 0 <= j < self.entries@.len() && self.entries@[j].0@ == k;
        assert(j == i);
    }

    /// An empty store: no key has a value.
    pub fn new() -> (s: Store)
        ensures
            s.wf(),
            s@ == Map::<Seq<u8>, Seq<u8>>::empty(),
    {
        let s = Store { entries: Vec::new() };
        proof {
            assert(s@ =~= Map::<Seq<u8>, Seq<u8>>::empty());
        }
        s
    }

    /// Looks a key up; returns its value exactly when the key is present.
    pub fn get(&self, key: &Vec<u8>) -> (r: Option<Vec<u8>>)
        requires
            self.wf(),
        ensures
            match r {
                Some(v) => self@.contains_key(key@) && v@ == self@[key@],
                None => !self@.contains_key(key@),
            },
    {
        let n: usize = self.entries.len();
        let mut i: usize = 0;
        while i < n
            invariant
                self.wf(),
                n == self.entries@.len(),
                i <= n,
                forall|j: int| 0 <= j < i ==> self.entries@[j].0@ != key@,
            decreases n - i,
        {
            if bytes_eq(&self.entries[i].0, key) {
                let v = self.entries[i].1.clone();
                proof {
                    self.lemma_entry_is_view(i as int);
                }
                return Some(v);
            }
            i = i + 1;
        }
        proof {
            assert(forall|j: int|
                0 <= j < self.entries@.len() ==> self.entries@[j].0@ != key@);
            assert(!self@.contains_key(key@));
        }
        None
    }

    /// Writes a pair; afterwards the model maps `key` to `value` and every
    /// other key is unchanged. Returns the value now stored under `key`.
    pub fn set(&mut self, key: Vec<u8>, value: Vec<u8>) -> (r: Vec<u8>)
        requires
            old(self).wf(),
        ensures
            final(self).wf(),
            final(self)@ == old(self)@.insert(key@, value@),
            r@ == value@,
    {
        let n: usize = self.entries.len();
        let mut i: usize = 0;
        while i < n
            invariant
                *self == *old(self),
                self.wf(),
                n == self.entries@.len(),
                i <= n,
                forall|j: int| 0 <= j < i ==> self.entries@[j].0@ != key@,
            decreases n - i,
        {
            if bytes_eq(&self.entries[i].0, &key) {
                let r = value.clone();
                let ghost gi = i as int;
                self.entries[i] = (key, value);
                proof {
                    assert(self.wf());
                    assert_maps_equal!(self@, old(self)@.insert(key@, value@), k => {
                        if k == key@ {
                            self.lemma_entry_is_view(gi);
                            assert(self@.contains_key(k));
                        } else {
                            if old(self)@.contains_key(k) {
                                let j = choose|j: int|
                                    0 <= j < old(self).entries@.len()
                                        && old(self).entries@[j].0@ == k;
                                assert(self.entries@[j].0@ == k);
                                self.lemma_entry_is_view(j);
                                old(self).lemma_entry_is_view(j);
                            }
                            if self@.contains_key(k) {
                                let j = choose|j: int|
                                    0 <= j < self.entries@.len() && self.entries@[j].0@ == k;
                                assert(j != gi);
                                assert(old(self).entries@[j].0@ == k);
                                old(self).lemma_entry_is_view(j);
                                self.lemma_entry_is_view(j);
                            }
                        }
                    });
                }
                return r;
            }
            i = i + 1;
        }
        let r = value.clone();
        let ghost old_len = self.entries@.len();
        self.entries.push((key, value));
        proof {
            assert(self.entries@[old_len as int].0@ == key@);
            assert(self.wf());
            assert_maps_equal!(self@, old(self)@.insert(key@, value@), k => {
                if k == key@ {
                    self.lemma_entry_is_view(old_len as int);
                } else {
                    if old(self)@.contains_key(k) {
                        let j = choose|j: int|
                            0 <= j < old(self).entries@.len() && old(self).entries@[j].0@ == k;
                        assert(self.entries@[j].0@ == k);
                        self.lemma_entry_is_view(j);
                        old(self).lemma_entry_is_view(j);
                    }
                    if self@.contains_key(k) {
                        let j = choose|j: int|
                            0 <= j < self.entries@.len() && self.entries@[j].0@ == k;
                        assert(j != old_len);
                        old(self).lemma_entry_is_view(j);
                        self.lemma_entry_is_view(j);
                    }
                }
            });
        }
        r
    }

    /// A snapshot: every stored pair, each key exactly once.
    pub fn snapshot(&self) -> (r: &Vec<(Vec<u8>, Vec<u8>)>)
        requires
            self.wf(),
        ensures
            r@ == self.entries@,
            forall|i: int| #![auto]
                0 <= i < r@.len() ==> self@.contains_key(r@[i].0@) && self@[r@[i].0@] == r@[i].1@,
    {
        proof {
            assert forall|i: int| #![auto]
                0 <= i < self.entries@.len() ==> self@.contains_key(self.entries@[i].0@)
                    && self@[self.entries@[i].0@] == self.entries@[i].1@ by {
                if 0 <= i < self.entries@.len() {
                    self.lemma_entry_is_view(i);
                }
            }
        }
        &self.entries
    }
}

} // verus!
