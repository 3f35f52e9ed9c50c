//! A table keyed by text. Entries keep the order in which their names first
//! came in; a name occurs at most once.

use vstd::prelude::*;
use crate::utils::text::{str_eq, texts};

verus! {

/// A map from key texts to values together with the order in which its
/// keys are enumerated.
pub struct Ordered<V> {
    pub keys: Seq<Seq<char>>,
    pub map: Map<Seq<char>, V>,
}

impl<V> Ordered<V> {
    /// The map without keys.
    pub open spec fn empty() -> Self {
        Ordered { keys: Seq::empty(), map: Map::empty() }
    }

    /// Whether something stands under `key`.
    pub open spec fn contains_key(self, key: Seq<char>) -> bool {
        self.map.contains_key(key)
    }

    /// What stands under `key`, if anything.
    pub open spec fn get(self, key: Seq<char>) -> Option<V> {
        if self.map.contains_key(key) {
            Some(self.map[key])
        } else {
            None
        }
    }

    /// A write under `key`: a new key comes last, a known one keeps its place.
    pub open spec fn put(self, key: Seq<char>, v: V) -> Self {
        Ordered {
            keys: if self.map.contains_key(key) {
                self.keys
            } else {
                self.keys.push(key)
            },
            map: self.map.insert(key, v),
        }
    }

    /// Without `key`; the other keys keep their order.
    pub open spec fn removed(self, key: Seq<char>) -> Self {
        Ordered { keys: self.keys.remove_value(key), map: self.map.remove(key) }
    }

    /// The values in the order of their keys.
    pub open spec fn values(self) -> Seq<V> {
        Seq::new(self.keys.len(), |i: int| self.map[self.keys[i]])
    }

    /// The same keys in the same order, with `f` applied to each value.
    pub open spec fn mapped<W>(self, f: spec_fn(V) -> W) -> Ordered<W> {
        Ordered {
            keys: self.keys,
            map: Map::new(|k: Seq<char>| self.map.contains_key(k), |k: Seq<char>| f(self.map[k])),
        }
    }
}

/// A table from names to values.
#[derive(Debug)]
pub struct NameMap<V> {
    pub names: Vec<String>,
    pub values: Vec<V>,
}

impl<V> NameMap<V> {
    /// Names and values pair up, and no name occurs twice.
    pub open spec fn wf(&self) -> bool {
        &&& self.names.len() == self.values.len()
        &&& forall|i: int, j: int|
            0 <= i < j < self.names.len() ==> self.names[i]@ != self.names[j]@
    }

    /// Whether some entry is called `name`.
    pub open spec fn has(&self, name: Seq<char>) -> bool {
        exists|i: int| 0 <= i < self.names.len() && self.names[i]@ == name
    }

    /// The position of the entry called `name`.
    pub open spec fn slot(&self, name: Seq<char>) -> int {
        choose|i: int| 0 <= i < self.names.len() && self.names[i]@ == name
    }

    /// The table as a map from names to values.
    pub open spec fn view(&self) -> Map<Seq<char>, V> {
        Map::new(|n: Seq<char>| self.has(n), |n: Seq<char>| self.values[self.slot(n)])
    }

    /// The names in the order of their entries.
    pub open spec fn key_texts(&self) -> Seq<Seq<char>> {
        texts(self.names@)
    }

    /// The table as a map with the order of its keys.
    pub open spec fn ordered(&self) -> Ordered<V> {
        Ordered { keys: self.key_texts(), map: self@ }
    }

    /// The names in order are the keys of the map, each once, and the values
    /// in order are what the map holds under them.
    pub proof fn lemma_order(&self)
        requires
            self.wf(),
        ensures
            self.key_texts().no_duplicates(),
            forall|k: Seq<char>| self.key_texts().contains(k) <==> self@.contains_key(k),
            self.values@ == self.ordered().values(),
    {
        assert forall|k: Seq<char>| self.key_texts().contains(k) <==> self@.contains_key(k) by {
            if self.key_texts().contains(k) {
                let j = choose|j: int| 0 <= j < self.key_texts().len() && self.key_texts()[j] == k;
                assert(self.names[j]@ == k);
            }
            if self@.contains_key(k) {
                let j = self.slot(k);
                assert(self.key_texts()[j] == k);
            }
        }
        assert forall|i: int| 0 <= i < self.values.len() implies self.values@[i]
            == self.ordered().values()[i] by {
            self.lemma_slot(i);
        }
        assert(self.values@ =~= self.ordered().values());
    }

    /// The entry at position `i` is the one that the map holds under its name.
    pub proof fn lemma_slot(&self, i: int)
        requires
            self.wf(),
            0 <= i < self.names.len(),
        ensures
            self.has(self.names[i]@),
            self.slot(self.names[i]@) == i,
            self@.contains_key(self.names[i]@),
            self@[self.names[i]@] == self.values[i],
    {
        let j = self.slot(self.names[i]@);
        assert(0 <= j < self.names.len() && self.names[j]@ == self.names[i]@);
        if j < i {
            assert(self.names[j]@ != self.names[i]@);
        } else if i < j {
            assert(self.names[i]@ != self.names[j]@);
        }
    }

    /// A name that the map holds has a position.
    pub proof fn lemma_has(&self, name: Seq<char>)
        requires
            self.wf(),
            self@.contains_key(name),
        ensures
            0 <= self.slot(name) < self.names.len(),
            self.names[self.slot(name)]@ == name,
            self@[name] == self.values[self.slot(name)],
    {
    }

    /// Replacing the value at position `i` replaces what the map holds under
    /// that entry's name, and nothing else.
    pub proof fn lemma_update(old: &Self, new: &Self, i: int)
        requires
            old.wf(),
            0 <= i < old.names.len(),
            new.names == old.names,
            new.values@ == old.values@.update(i, new.values[i]),
        ensures
            new.wf(),
            new@ == old@.insert(old.names[i]@, new.values[i]),
            new.key_texts() == old.key_texts(),
    {
        assert(new.values.len() == old.values.len());
        let target = old@.insert(old.names[i]@, new.values[i]);
        assert forall|n: Seq<char>| new@.contains_key(n) == target.contains_key(n) by {
            old.lemma_slot(i);
        }
        assert forall|n: Seq<char>| new@.contains_key(n) implies new@[n] == target[n] by {
            let j = new.slot(n);
            old.lemma_slot(j);
            old.lemma_slot(i);
        }
        assert(new@ =~= target);
    }

    /// A table without entries.
    pub fn new() -> (r: Self)
        ensures
            r.wf(),
            r@ == Map::<Seq<char>, V>::empty(),
            r.ordered() == Ordered::<V>::empty(),
            r.names.len() == 0,
    {
        let r = NameMap { names: Vec::new(), values: Vec::new() };
        assert(r@ =~= Map::<Seq<char>, V>::empty());
        assert(r.key_texts() =~= Seq::<Seq<char>>::empty());
        r
    }

    /// The number of entries.
    pub fn len(&self) -> (n: usize)
        requires
            self.wf(),
        ensures
            n == self.names.len(),
            n == self.values.len(),
    {
        self.names.len()
    }

    /// Where the entry called `name` stands, if there is one.
    pub fn position(&self, name: &str) -> (r: Option<usize>)
        requires
            self.wf(),
        ensures
            r is Some == self@.contains_key(name@),
            r matches Some(i) ==> i < self.names.len() && self.names[i as int]@ == name@
                && self.slot(name@) == i && self@[name@] == self.values[i as int],
    {
        let mut i: usize = 0;
        while i < self.names.len()
            invariant
                i <= self.names.len(),
                self.wf(),
                forall|j: int| 0 <= j < i ==> self.names[j]@ != name@,
            decreases self.names.len() - i,
        {
            if str_eq(self.names[i].as_str(), name) {
                proof {
                    self.lemma_slot(i as int);
                }
                return Some(i);
            }
            i += 1;
        }
        None
    }

    /// Whether an entry is called `name`.
    pub fn contains_key(&self, name: &str) -> (r: bool)
        requires
            self.wf(),
        ensures
            r == self@.contains_key(name@),
    {
        self.position(name).is_some()
    }

    /// The value of the entry called `name`.
    pub fn get(&self, name: &str) -> (r: Option<&V>)
        requires
            self.wf(),
        ensures
            r is Some == self@.contains_key(name@),
            r matches Some(v) ==> *v == self@[name@],
    {
        match self.position(name) {
            Some(i) => Some(&self.values[i]),
            None => None,
        }
    }

    /// Puts `v` under `name`: in place of the value that was there, or as a
    /// new last entry.
    pub fn insert(&mut self, name: &str, v: V)
        requires
            old(self).wf(),
        ensures
            final(self).wf(),
            final(self)@ == old(self)@.insert(name@, v),
            final(self).ordered() == old(self).ordered().put(name@, v),
    {
        let ghost before = *self;
        match self.position(name) {
            Some(i) => {
                self.values[i] = v;
                proof {
                    Self::lemma_update(&before, self, i as int);
                }
            },
            None => {
                self.names.push(name.to_owned());
                self.values.push(v);
                proof {
                    let n = before.names.len() as int;
                    assert(self.names[n]@ == name@);
                    assert forall|i: int, j: int| 0 <= i < j < self.names.len() implies self.names[i]@
                        != self.names[j]@ by {
                        if j < n {
                            assert(self.names[i] == before.names[i]);
                            assert(self.names[j] == before.names[j]);
                        } else {
                            assert(self.names[i] == before.names[i]);
                        }
                    }
                    let target = before@.insert(name@, v);
                    assert forall|k: Seq<char>| self@.contains_key(k) == target.contains_key(k) by {
                        if before.has(k) {
                            let j = before.slot(k);
                            assert(self.names[j] == before.names[j]);
                        }
                        if self.has(k) {
                            let j = self.slot(k);
                            if j < n {
                                assert(self.names[j] == before.names[j]);
                            }
                        }
                    }
                    assert forall|k: Seq<char>| self@.contains_key(k) implies self@[k] == target[k] by {
                        let j = self.slot(k);
                        self.lemma_slot(j);
                        if j < n {
                            assert(self.names[j] == before.names[j]);
                            before.lemma_slot(j);
                        }
                    }
                    assert(self@ =~= target);
                    assert(self.key_texts() =~= before.key_texts().push(name@));
                }
            },
        }
    }

    /// Takes the entry called `name` out, if there is one; the others keep
    /// their order.
    pub fn remove(&mut self, name: &str)
        requires
            old(self).wf(),
        ensures
            final(self).wf(),
            final(self)@ == old(self)@.remove(name@),
            final(self).ordered() == old(self).ordered().removed(name@),
    {
        let ghost before = *self;
        proof {
            before.key_texts().index_of_first_ensures(name@);
        }
        match self.position(name) {
            Some(i) => {
                self.names.remove(i);
                self.values.remove(i);
                proof {
                    assert(before.key_texts()[i as int] == name@);
                    let first = before.key_texts().index_of_first(name@)->0;
                    assert(before.names[first]@ == name@);
                    before.lemma_slot(first);
                    assert(first == i);
                    assert(self.key_texts() =~= before.key_texts().remove(i as int));
                    let target = before@.remove(name@);
                    assert forall|a: int, b: int| 0 <= a < b < self.names.len() implies self.names[a]@
                        != self.names[b]@ by {
                        let a0 = if a < i { a } else { a + 1 };
                        let b0 = if b < i { b } else { b + 1 };
                        assert(self.names[a] == before.names[a0]);
                        assert(self.names[b] == before.names[b0]);
                    }
                    assert forall|k: Seq<char>| self@.contains_key(k) == target.contains_key(k) by {
                        if self.has(k) {
                            let j = self.slot(k);
                            let j0 = if j < i { j } else { j + 1 };
                            assert(self.names[j] == before.names[j0]);
                            before.lemma_slot(j0);
                            before.lemma_slot(i as int);
                        }
                        if before.has(k) && k != name@ {
                            let j0 = before.slot(k);
                            let j = if j0 < i { j0 } else { j0 - 1 };
                            assert(self.names[j] == before.names[j0]);
                        }
                    }
                    assert forall|k: Seq<char>| self@.contains_key(k) implies self@[k] == target[k] by {
                        let j = self.slot(k);
                        let j0 = if j < i { j } else { j + 1 };
                        self.lemma_slot(j);
                        assert(self.names[j] == before.names[j0]);
                        assert(self.values[j] == before.values[j0]);
                        before.lemma_slot(j0);
                    }
                    assert(self@ =~= target);
                }
            },
            None => {
                assert(self@ =~= before@.remove(name@));
                proof {
                    if before.key_texts().contains(name@) {
                        let j = choose|j: int|
                            0 <= j < before.key_texts().len() && before.key_texts()[j] == name@;
                        assert(before.names[j]@ == name@);
                    }
                }
            },
        }
    }
}

} // verus!
