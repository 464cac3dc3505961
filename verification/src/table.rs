//! A table keyed by strings.
//!
//! The table is an association list in which no key occurs twice. Its model
//! is a `Map` from the text of a key to the value stored under it; the order
//! of the entries is visible through [`Table::keys`] so that callers can walk
//! the table by position.

use vstd::prelude::*;

verus! {

/// `str::eq` of the standard library: two string slices compare equal
/// exactly when they hold the same text.
pub assume_specification[ <str as PartialEq>::eq ](a: &str, b: &str) -> (r: bool)
    ensures
        r == (a@ == b@),
;

/// Some position of `key` in `keys`; the only one when `keys` has no
/// duplicates and holds `key`.
pub open spec fn slot_of(keys: Seq<Seq<char>>, key: Seq<char>) -> int {
    choose|i: int| 0 <= i < keys.len() && keys[i] == key
}

/// In a sequence without duplicates every element is found at its own place.
pub proof fn lemma_slot_of(keys: Seq<Seq<char>>, i: int)
    requires
        keys.no_duplicates(),
        0 <= i < keys.len(),
    ensures
        slot_of(keys, keys[i]) == i,
{
    let j = slot_of(keys, keys[i]);
    assert(0 <= j < keys.len() && keys[j] == keys[i]);
}

#[derive(Debug)]
pub struct Table<V> {
    names: Vec<String>,
    items: Vec<V>,
}

impl<V> View for Table<V> {
    type V = Map<Seq<char>, V>;

    open spec fn view(&self) -> Map<Seq<char>, V> {
        Map::new(
            |k: Seq<char>| self.keys().contains(k),
            |k: Seq<char>| self.values()[slot_of(self.keys(), k)],
        )
    }
}

impl<V> Table<V> {
    /// The keys, as text, in the order in which the table holds them.
    pub closed spec fn keys(self) -> Seq<Seq<char>> {
        Seq::new(self.names@.len(), |i: int| self.names@[i]@)
    }

    /// The values, each at the position of its key in [`Table::keys`].
    pub closed spec fn values(self) -> Seq<V> {
        self.items@
    }

    /// Every key has a value and no key occurs twice.
    pub open spec fn wf(self) -> bool {
        &&& self.keys().len() == self.values().len()
        &&& self.keys().no_duplicates()
    }

    /// How the positions of a well-formed table relate to its model.
    pub proof fn lemma_entries(self)
        requires
            self.wf(),
        ensures
            self@.dom() == self.keys().to_set(),
            self@.dom().finite(),
            self@.dom().len() == self.keys().len(),
            forall|i: int|
                0 <= i < self.keys().len() ==> self@.dom().contains(#[trigger] self.keys()[i])
                    && self@[self.keys()[i]] == self.values()[i],
    {
        let keys = self.keys();
        assert(self@.dom() =~= keys.to_set());
        vstd::seq_lib::seq_to_set_is_finite(keys);
        keys.unique_seq_to_set();
        assert forall|i: int| 0 <= i < keys.len() implies self@.dom().contains(#[trigger] keys[i])
            && self@[keys[i]] == self.values()[i] by {
            lemma_slot_of(keys, i);
        }
    }

    pub fn new() -> (t: Self)
        ensures
            t.wf(),
            t@ == Map::<Seq<char>, V>::empty(),
            t.keys() == Seq::<Seq<char>>::empty(),
    {
        let t = Table { names: Vec::new(), items: Vec::new() };
        assert(t.keys() =~= Seq::<Seq<char>>::empty());
        assert(t@ =~= Map::<Seq<char>, V>::empty());
        t
    }

    pub fn len(&self) -> (n: usize)
        requires
            self.wf(),
        ensures
            n == self.keys().len(),
            n == self@.dom().len(),
    {
        proof {
            self.lemma_entries();
        }
        self.names.len()
    }

    pub fn is_empty(&self) -> (b: bool)
        requires
            self.wf(),
        ensures
            b == (self@ == Map::<Seq<char>, V>::empty()),
            b == (self.keys().len() == 0),
    {
        proof {
            self.lemma_entries();
            if self.keys().len() == 0 {
                assert(self@ =~= Map::<Seq<char>, V>::empty());
            } else {
                assert(self@.dom().contains(self.keys()[0]));
            }
        }
        self.names.len() == 0
    }

    /// The position of `key`, if the table holds it.
    pub fn find(&self, key: &str) -> (r: Option<usize>)
        requires
            self.wf(),
        ensures
            match r {
                Some(i) => i < self.keys().len() && self.keys()[i as int] == key@
                    && self@.dom().contains(key@),
                None => !self@.dom().contains(key@),
            },
    {
        let mut i: usize = 0;
        while i < self.names.len()
            invariant
                i <= self.names.len(),
                self.keys().len() == self.names.len(),
                forall|j: int| 0 <= j < i ==> self.keys()[j] != key@,
            decreases self.names.len() - i,
        {
            if self.names[i].as_str().eq(key) {
                assert(self.keys()[i as int] == key@);
                return Some(i);
            }
            i += 1;
        }
        None
    }

    pub fn contains_key(&self, key: &str) -> (b: bool)
        requires
            self.wf(),
        ensures
            b == self@.dom().contains(key@),
    {
        self.find(key).is_some()
    }

    /// The value stored under `key`.
    pub fn get(&self, key: &str) -> (r: Option<&V>)
        requires
            self.wf(),
        ensures
            r == (if self@.dom().contains(key@) {
                Some(&self@[key@])
            } else {
                None
            }),
    {
        match self.find(key) {
            Some(i) => {
                proof {
                    self.lemma_entries();
                }
                Some(&self.items[i])
            },
            None => None,
        }
    }

    /// The key at position `i`.
    pub fn key_at(&self, i: usize) -> (k: &String)
        requires
            self.wf(),
            i < self.keys().len(),
        ensures
            k@ == self.keys()[i as int],
            self@.dom().contains(k@),
    {
        proof {
            self.lemma_entries();
        }
        &self.names[i]
    }

    /// The value at position `i`.
    pub fn value_at(&self, i: usize) -> (v: &V)
        requires
            self.wf(),
            i < self.keys().len(),
        ensures
            *v == self.values()[i as int],
            *v == self@[self.keys()[i as int]],
    {
        proof {
            self.lemma_entries();
        }
        &self.items[i]
    }

    /// The value at position `i`, to be changed in place. The keys stay as
    /// they are.
    pub fn value_at_mut(&mut self, i: usize) -> (v: &mut V)
        requires
            old(self).wf(),
            i < old(self).keys().len(),
        ensures
            *v == old(self).values()[i as int],
            final(self).keys() == old(self).keys(),
            final(self).values() == old(self).values().update(i as int, *final(v)),
            final(self).wf(),
            final(self)@ == old(self)@.insert(old(self).keys()[i as int], *final(v)),
    {
        proof {
            old(self).lemma_entries();
            lemma_slot_of(old(self).keys(), i as int);
            assert forall|k: Seq<char>| old(self).keys().contains(k) && k != old(self).keys()[i as int] implies slot_of(
                old(self).keys(),
                k,
            ) != i by {
                let j = slot_of(old(self).keys(), k);
                assert(old(self).keys()[j] == k);
            }
        }
        &mut self.items[i]
    }

    /// Stores `value` under `key`, in place of any value that was there, and
    /// returns the value it replaced. A new key goes to the end.
    pub fn insert(&mut self, key: String, value: V) -> (prev: Option<V>)
        requires
            old(self).wf(),
        ensures
            final(self).wf(),
            final(self)@ == old(self)@.insert(key@, value),
            prev == (if old(self)@.dom().contains(key@) {
                Some(old(self)@[key@])
            } else {
                None
            }),
            old(self)@.dom().contains(key@) ==> final(self).keys() == old(self).keys(),
            !old(self)@.dom().contains(key@) ==> final(self).keys() == old(self).keys().push(key@),
    {
        let ghost before = *self;
        proof {
            before.lemma_entries();
        }
        match self.find(key.as_str()) {
            Some(i) => {
                let mut held = value;
                std::mem::swap(&mut self.items[i], &mut held);
                proof {
                    assert(self.keys() =~= before.keys());
                    assert(self.values() =~= before.values().update(i as int, value));
                    lemma_slot_of(before.keys(), i as int);
                    assert(self@ =~= before@.insert(key@, value)) by {
                        assert forall|k: Seq<char>| before.keys().contains(k) && k != key@ implies
                            slot_of(before.keys(), k) != i by {
                            let j = slot_of(before.keys(), k);
                            assert(before.keys()[j] == k);
                        }
                    }
                }
                Some(held)
            },
            None => {
                self.names.push(key);
                self.items.push(value);
                proof {
                    let n = before.keys().len() as int;
                    assert(self.keys() =~= before.keys().push(key@));
                    assert(self.values() =~= before.values().push(value));
                    assert(self.keys().no_duplicates()) by {
                        assert forall|a: int, b: int|
                            0 <= a < self.keys().len() && 0 <= b < self.keys().len() && a != b implies self.keys()[a]
                            != self.keys()[b] by {
                            if a < n && b < n {
                                assert(before.keys()[a] != before.keys()[b]);
                            } else if a < n {
                                assert(before.keys().contains(before.keys()[a]));
                            } else {
                                assert(before.keys().contains(before.keys()[b]));
                            }
                        }
                    }
                    lemma_slot_of(self.keys(), n);
                    assert(self@ =~= before@.insert(key@, value)) by {
                        assert forall|k: Seq<char>| before.keys().contains(k) implies self.keys().contains(k)
                            && slot_of(self.keys(), k) == slot_of(before.keys(), k) by {
                            let j = slot_of(before.keys(), k);
                            assert(before.keys()[j] == k);
                            assert(self.keys()[j] == k);
                            lemma_slot_of(self.keys(), j);
                        }
                        assert forall|k: Seq<char>| self.keys().contains(k) && k != key@ implies before.keys().contains(
                            k,
                        ) by {
                            let j = slot_of(self.keys(), k);
                            assert(self.keys()[j] == k);
                            assert(before.keys()[j] == k);
                        }
                        assert(self.keys()[n] == key@);
                    }
                }
                None
            },
        }
    }

    /// Takes `key` and its value out of the table and returns the value. The
    /// other entries keep their order.
    pub fn remove(&mut self, key: &str) -> (prev: Option<V>)
        requires
            old(self).wf(),
        ensures
            final(self).wf(),
            final(self)@ == old(self)@.remove(key@),
            prev == (if old(self)@.dom().contains(key@) {
                Some(old(self)@[key@])
            } else {
                None
            }),
            old(self)@.dom().contains(key@) ==> final(self).keys() == old(self).keys().remove(
                slot_of(old(self).keys(), key@),
            ),
            !old(self)@.dom().contains(key@) ==> final(self).keys() == old(self).keys(),
    {
        let ghost before = *self;
        proof {
            before.lemma_entries();
        }
        match self.find(key) {
            Some(i) => {
                self.names.remove(i);
                let held = self.items.remove(i);
                proof {
                    let at = i as int;
                    lemma_slot_of(before.keys(), at);
                    assert(self.keys() =~= before.keys().remove(at));
                    assert(self.values() =~= before.values().remove(at));
                    assert(self.keys().no_duplicates()) by {
                        assert forall|a: int, b: int|
                            0 <= a < self.keys().len() && 0 <= b < self.keys().len() && a != b implies self.keys()[a]
                            != self.keys()[b] by {
                            let a0 = if a < at { a } else { a + 1 };
                            let b0 = if b < at { b } else { b + 1 };
                            assert(before.keys()[a0] != before.keys()[b0]);
                        }
                    }
                    assert(self@ =~= before@.remove(key@)) by {
                        assert forall|k: Seq<char>| before.keys().contains(k) && k != key@ implies self.keys().contains(
                            k,
                        ) && self.values()[slot_of(self.keys(), k)] == before.values()[slot_of(before.keys(), k)] by {
                            let j = slot_of(before.keys(), k);
                            assert(before.keys()[j] == k);
                            let j1 = if j < at { j } else { j - 1 };
                            assert(self.keys()[j1] == k);
                            lemma_slot_of(self.keys(), j1);
                        }
                        assert forall|k: Seq<char>| self.keys().contains(k) implies before.keys().contains(k) && k
                            != key@ by {
                            let j = slot_of(self.keys(), k);
                            assert(self.keys()[j] == k);
                            let j0 = if j < at { j } else { j + 1 };
                            assert(before.keys()[j0] == k);
                        }
                    }
                }
                Some(held)
            },
            None => {
                assert(self@ =~= before@.remove(key@));
                None
            },
        }
    }
}

} // verus!
