//! A sparse map from non-negative positions to values, kept in ascending
//! order of position, so that a write far out allocates nothing in between.

use vstd::prelude::*;

verus! {

/// Whether `k` is the largest position of `s`.
pub open spec fn is_max_of(s: Set<usize>, k: usize) -> bool {
    s.contains(k) && forall|j: usize| s.contains(j) ==> j <= k
}

/// One more than the largest position of `s`; 0 where `s` has none.
pub open spec fn end_of(s: Set<usize>) -> int {
    if exists|k: usize| is_max_of(s, k) {
        (choose|k: usize| is_max_of(s, k)) + 1
    } else {
        0
    }
}

/// `end_of` is one more than the largest position, whichever way it was found.
pub proof fn lemma_end_of_max(s: Set<usize>, k: usize)
    requires
        is_max_of(s, k),
    ensures
        end_of(s) == k + 1,
{
    let c = choose|c: usize| is_max_of(s, c);
    assert(is_max_of(s, c));
    assert(c <= k && k <= c);
}

/// A set without positions ends at 0.
pub proof fn lemma_end_of_empty(s: Set<usize>)
    requires
        forall|k: usize| !s.contains(k),
    ensures
        end_of(s) == 0,
{
}

/// The elements at the positions `from..to`, ascending; a position without
/// an element gives `hole`, or nothing where `skip` is set.
pub open spec fn dense<T>(m: Map<usize, T>, from: int, to: int, skip: bool, hole: T) -> Seq<T>
    decreases to - from,
{
    if from >= to {
        Seq::empty()
    } else if m.contains_key((to - 1) as usize) {
        dense(m, from, to - 1, skip, hole).push(m[(to - 1) as usize])
    } else if skip {
        dense(m, from, to - 1, skip, hole)
    } else {
        dense(m, from, to - 1, skip, hole).push(hole)
    }
}

/// Positions without elements add nothing when holes are skipped.
pub proof fn lemma_dense_gap<T>(m: Map<usize, T>, from: int, a: int, b: int, hole: T)
    requires
        0 <= from <= a <= b <= usize::MAX + 1,
        forall|k: usize| a <= k < b ==> !m.contains_key(k),
    ensures
        dense(m, from, b, true, hole) == dense(m, from, a, true, hole),
    decreases b - a,
{
    if a < b {
        lemma_dense_gap(m, from, a, b - 1, hole);
        assert(!m.contains_key((b - 1) as usize));
    }
}

/// With holes skipped, the elements up to the position after the `j`-th
/// entry of an ascending list are the first `j` values of the list.
pub proof fn lemma_dense_sorted<T>(keys: Seq<usize>, values: Seq<T>, m: Map<usize, T>, hole: T, j: int)
    requires
        forall|a: int, b: int| 0 <= a < b < keys.len() ==> keys[a] < keys[b],
        values.len() == keys.len(),
        forall|k: usize| m.contains_key(k) <==> keys.contains(k),
        forall|i: int| 0 <= i < keys.len() ==> m[#[trigger] keys[i]] == values[i],
        0 <= j <= keys.len(),
    ensures
        values.take(j) == dense(
            m,
            0,
            if j == 0 {
                0
            } else {
                keys[j - 1] + 1
            },
            true,
            hole,
        ),
    decreases j,
{
    if j == 0 {
        assert(values.take(0) =~= Seq::<T>::empty());
    } else {
        lemma_dense_sorted(keys, values, m, hole, j - 1);
        let low: int = if j == 1 {
            0
        } else {
            keys[j - 2] + 1
        };
        let top = keys[j - 1];
        assert forall|k: usize| low <= k < top implies !m.contains_key(k) by {
            if keys.contains(k) {
                let i = choose|i: int| 0 <= i < keys.len() && keys[i] == k;
                if i < j - 1 {
                    if j >= 2 && i < j - 2 {
                        assert(keys[i] < keys[j - 2]);
                    }
                } else if i > j - 1 {
                    assert(keys[j - 1] < keys[i]);
                }
            }
        }
        if j >= 2 {
            assert(keys[j - 2] < keys[j - 1]);
        }
        lemma_dense_gap(m, 0, low, top as int, hole);
        assert(keys.contains(top));
        assert(values.take(j) =~= values.take(j - 1).push(values[j - 1]));
    }
}

/// A map from positions to values.
#[derive(Debug)]
pub struct SparseMap<V> {
    pub keys: Vec<usize>,
    pub values: Vec<V>,
}

impl<V> SparseMap<V> {
    /// Positions and values pair up, and the positions strictly ascend.
    pub open spec fn wf(&self) -> bool {
        &&& self.keys.len() == self.values.len()
        &&& forall|i: int, j: int| 0 <= i < j < self.keys.len() ==> self.keys[i] < self.keys[j]
    }

    /// The map from positions to values.
    pub open spec fn view(&self) -> Map<usize, V> {
        Map::new(
            |k: usize| self.keys@.contains(k),
            |k: usize| self.values[self.keys@.index_of(k)],
        )
    }

    /// One more than the largest position in use; 0 for an empty map.
    pub open spec fn end(&self) -> int {
        if self.keys.len() == 0 {
            0
        } else {
            self.keys@.last() + 1
        }
    }

    /// The entry at index `i` is the one that the map holds under its position.
    pub proof fn lemma_index(&self, i: int)
        requires
            self.wf(),
            0 <= i < self.keys.len(),
        ensures
            self.keys@.contains(self.keys[i]),
            self.keys@.index_of(self.keys[i]) == i,
            self@.contains_key(self.keys[i]),
            self@[self.keys[i]] == self.values[i],
    {
        let j = self.keys@.index_of(self.keys[i]);
        assert(self.keys@[i] == self.keys[i]);
        assert(0 <= j < self.keys.len() && self.keys[j] == self.keys[i]);
        if j < i {
            assert(self.keys[j] < self.keys[i]);
        } else if i < j {
            assert(self.keys[i] < self.keys[j]);
        }
    }

    /// Every position in use is below `end`, and `end - 1` is in use unless
    /// the map is empty.
    pub proof fn lemma_end(&self)
        requires
            self.wf(),
        ensures
            forall|k: usize| self@.contains_key(k) ==> k < self.end(),
            self.end() > 0 ==> self@.contains_key((self.end() - 1) as usize),
            self.end() == 0 <==> self@ == Map::<usize, V>::empty(),
            self.end() == end_of(self@.dom()),
    {
        self.lemma_end_inner();
        if self.keys.len() > 0 {
            let top = self.keys@.last();
            assert(is_max_of(self@.dom(), top));
            lemma_end_of_max(self@.dom(), top);
        } else {
            lemma_end_of_empty(self@.dom());
        }
    }

    proof fn lemma_end_inner(&self)
        requires
            self.wf(),
        ensures
            forall|k: usize| self@.contains_key(k) ==> k < self.end(),
            self.end() > 0 ==> self@.contains_key((self.end() - 1) as usize),
            self.end() == 0 <==> self@ == Map::<usize, V>::empty(),
    {
        let n = self.keys.len() as int;
        assert forall|k: usize| self@.contains_key(k) implies k < self.end() by {
            let j = self.keys@.index_of(k);
            if j < n - 1 {
                assert(self.keys[j] < self.keys[n - 1]);
            }
        }
        if n > 0 {
            self.lemma_index(n - 1);
            assert(self@ != Map::<usize, V>::empty());
        } else {
            assert(self@ =~= Map::<usize, V>::empty());
        }
    }

    /// A map without entries.
    pub fn new() -> (r: Self)
        ensures
            r.wf(),
            r@ == Map::<usize, V>::empty(),
            r.keys.len() == 0,
    {
        let r = SparseMap { keys: Vec::new(), values: Vec::new() };
        assert(r@ =~= Map::<usize, V>::empty());
        r
    }

    /// The number of entries.
    pub fn len(&self) -> (n: usize)
        requires
            self.wf(),
        ensures
            n == self.keys.len(),
            n == self@.len(),
            self@.dom().finite(),
    {
        proof {
            self.lemma_len();
        }
        self.keys.len()
    }

    /// The map has as many entries as there are positions listed.
    pub proof fn lemma_len(&self)
        requires
            self.wf(),
        ensures
            self@.dom().finite(),
            self@.len() == self.keys.len(),
    {
        assert(self.keys@.no_duplicates()) by {
            assert forall|i: int, j: int|
                0 <= i < self.keys@.len() && 0 <= j < self.keys@.len() && i != j implies self.keys@[i]
                != self.keys@[j] by {
                if i < j {
                    assert(self.keys[i] < self.keys[j]);
                } else {
                    assert(self.keys[j] < self.keys[i]);
                }
            }
        }
        self.keys@.unique_seq_to_set();
        assert(self@.dom() =~= self.keys@.to_set());
    }

    /// One more than the largest position in use; 0 for an empty map.
    pub fn end_position(&self) -> (n: usize)
        requires
            self.wf(),
            self.end() <= usize::MAX,
        ensures
            n == self.end(),
    {
        if self.keys.len() == 0 {
            0
        } else {
            self.keys[self.keys.len() - 1] + 1
        }
    }

    /// The index of the first entry whose position is `key` or more.
    pub fn lower_bound(&self, key: usize) -> (i: usize)
        requires
            self.wf(),
        ensures
            i <= self.keys.len(),
            forall|j: int| 0 <= j < i ==> self.keys[j] < key,
            forall|j: int| i <= j < self.keys.len() ==> self.keys[j] >= key,
    {
        let mut i: usize = self.keys.len();
        while i > 0 && self.keys[i - 1] >= key
            invariant
                i <= self.keys.len(),
                self.wf(),
                forall|j: int| i <= j < self.keys.len() ==> self.keys[j] >= key,
            decreases i,
        {
            i -= 1;
        }
        assert forall|j: int| 0 <= j < i implies self.keys[j] < key by {
            if j < i - 1 {
                assert(self.keys[j] < self.keys[i - 1]);
            }
        }
        i
    }

    /// Where `key` stands among the entries, if it is in use.
    pub fn position(&self, key: usize) -> (r: Option<usize>)
        requires
            self.wf(),
        ensures
            r is Some == self@.contains_key(key),
            r matches Some(i) ==> i < self.keys.len() && self.keys[i as int] == key && self@[key]
                == self.values[i as int],
    {
        let i = self.lower_bound(key);
        if i < self.keys.len() && self.keys[i] == key {
            proof {
                self.lemma_index(i as int);
            }
            Some(i)
        } else {
            proof {
                if self.keys@.contains(key) {
                    let j = self.keys@.index_of(key);
                    assert(self.keys[j] == key);
                    if j > i {
                        assert(self.keys[i as int] < self.keys[j]);
                    }
                }
            }
            None
        }
    }

    /// Whether position `key` is in use.
    pub fn contains_key(&self, key: usize) -> (r: bool)
        requires
            self.wf(),
        ensures
            r == self@.contains_key(key),
    {
        self.position(key).is_some()
    }

    /// The value at position `key`.
    pub fn get(&self, key: usize) -> (r: Option<&V>)
        requires
            self.wf(),
        ensures
            r is Some == self@.contains_key(key),
            r matches Some(v) ==> *v == self@[key],
    {
        match self.position(key) {
            Some(i) => Some(&self.values[i]),
            None => None,
        }
    }

    /// Puts `v` at position `key`, in place of what was there if anything.
    pub fn insert(&mut self, key: usize, v: V)
        requires
            old(self).wf(),
        ensures
            final(self).wf(),
            final(self)@ == old(self)@.insert(key, v),
    {
        let ghost before = *self;
        let i = self.lower_bound(key);
        if i < self.keys.len() && self.keys[i] == key {
            self.values[i] = v;
            proof {
                let target = before@.insert(key, v);
                assert forall|k: usize| self@.contains_key(k) implies self@[k] == target[k] by {
                    let j = self.keys@.index_of(k);
                    before.lemma_index(j);
                    before.lemma_index(i as int);
                }
                assert(self@ =~= target);
            }
        } else {
            self.keys.insert(i, key);
            self.values.insert(i, v);
            proof {
                let target = before@.insert(key, v);
                assert forall|a: int, b: int| 0 <= a < b < self.keys.len() implies self.keys[a]
                    < self.keys[b] by {
                    let a0 = if a < i { a } else { a - 1 };
                    let b0 = if b < i { b } else { b - 1 };
                    if a != i && b != i {
                        assert(before.keys[a0] < before.keys[b0]);
                    }
                }
                assert(self.keys[i as int] == key);
                assert forall|k: usize| self@.contains_key(k) == target.contains_key(k) by {
                    if self.keys@.contains(k) {
                        let j = self.keys@.index_of(k);
                        if j != i {
                            let j0 = if j < i { j } else { j - 1 };
                            assert(before.keys@[j0] == k);
                        }
                    }
                    if before.keys@.contains(k) {
                        let j0 = before.keys@.index_of(k);
                        let j = if j0 < i { j0 } else { j0 + 1 };
                        assert(self.keys@[j] == k);
                    }
                    if k == key {
                        assert(self.keys@[i as int] == k);
                    }
                }
                assert forall|k: usize| self@.contains_key(k) implies self@[k] == target[k] by {
                    let j = self.keys@.index_of(k);
                    self.lemma_index(j);
                    if j != i {
                        let j0 = if j < i { j } else { j - 1 };
                        assert(before.keys@[j0] == k);
                        before.lemma_index(j0);
                    }
                }
                assert(self@ =~= target);
            }
        }
    }

    /// Takes the entry at position `key` out, if there is one.
    pub fn remove(&mut self, key: usize)
        requires
            old(self).wf(),
        ensures
            final(self).wf(),
            final(self)@ == old(self)@.remove(key),
    {
        let ghost before = *self;
        match self.position(key) {
            Some(i) => {
                self.keys.remove(i);
                self.values.remove(i);
                proof {
                    let target = before@.remove(key);
                    assert forall|a: int, b: int| 0 <= a < b < self.keys.len() implies self.keys[a]
                        < self.keys[b] by {
                        let a0 = if a < i { a } else { a + 1 };
                        let b0 = if b < i { b } else { b + 1 };
                        assert(before.keys[a0] < before.keys[b0]);
                    }
                    assert forall|k: usize| self@.contains_key(k) == target.contains_key(k) by {
                        if self.keys@.contains(k) {
                            let j = self.keys@.index_of(k);
                            let j0 = if j < i { j } else { j + 1 };
                            assert(before.keys@[j0] == k);
                            before.lemma_index(j0);
                            before.lemma_index(i as int);
                        }
                        if before.keys@.contains(k) && k != key {
                            let j0 = before.keys@.index_of(k);
                            let j = if j0 < i { j0 } else { j0 - 1 };
                            assert(self.keys@[j] == k);
                        }
                    }
                    assert forall|k: usize| self@.contains_key(k) implies self@[k] == target[k] by {
                        let j = self.keys@.index_of(k);
                        let j0 = if j < i { j } else { j + 1 };
                        self.lemma_index(j);
                        assert(before.keys@[j0] == k);
                        before.lemma_index(j0);
                    }
                    assert(self@ =~= target);
                }
            },
            None => {
                assert(self@ =~= before@.remove(key));
            },
        }
    }

    /// Empties the map.
    pub fn clear(&mut self)
        ensures
            final(self).wf(),
            final(self)@ == Map::<usize, V>::empty(),
            final(self).keys.len() == 0,
    {
        self.keys.clear();
        self.values.clear();
        assert(self@ =~= Map::<usize, V>::empty());
    }
}

} // verus!
