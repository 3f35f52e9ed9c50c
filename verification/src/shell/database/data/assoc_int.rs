//! Associative arrays of integers: a map from key texts to signed words,
//! enumerated in the order in which the keys first came in.

use vstd::prelude::*;
use crate::error::exec::{ExecError, ExecErrorView};
use crate::shell::database::data::array::{is_wildcard, wildcard};
use crate::shell::database::data::array_int::{int_appended, int_for, to_int};
use crate::shell::database::data::assoc::{zero_key, zero_text, AssocData};
use crate::utils::name_map::{NameMap, Ordered};
use crate::utils::number::{int_to_string, numeral_of};
use crate::utils::text::{join, joined, texts};

verus! {

/// The numeral of a signed word.
pub open spec fn numeral(n: isize) -> Seq<char> {
    numeral_of(n as int)
}

/// An associative array of integers.
#[derive(Debug)]
pub struct IntAssocData {
    pub body: NameMap<isize>,
}

impl IntAssocData {
    /// No key occurs twice.
    pub open spec fn wf(&self) -> bool {
        self.body.wf()
    }

    /// The array as a map from key texts to integers, with the order of its
    /// keys.
    pub open spec fn view(&self) -> Ordered<isize> {
        self.body.ordered()
    }

    /// The array with each element as its numeral.
    pub open spec fn text_view(&self) -> Ordered<Seq<char>> {
        self@.mapped(|n: isize| numeral(n))
    }

    /// An associative array without elements.
    pub fn new() -> (r: Self)
        ensures
            r.wf(),
            r@ == Ordered::<isize>::empty(),
    {
        IntAssocData { body: NameMap::new() }
    }

    /// Removes every element.
    pub fn clear(&mut self)
        ensures
            final(self).wf(),
            final(self)@ == Ordered::<isize>::empty(),
    {
        self.body = NameMap::new();
    }

    /// An associative array always has a value.
    pub fn is_initialized(&self) -> (r: bool)
        ensures
            r,
    {
        true
    }

    /// An associative array is one.
    pub fn is_assoc(&self) -> (r: bool)
        ensures
            r,
    {
        true
    }

    /// The number of elements.
    pub fn len(&self) -> (n: usize)
        requires
            self.wf(),
        ensures
            n == self@.keys.len(),
    {
        self.body.len()
    }

    /// The integer under `key`, 0 where there is no element.
    pub fn int_at(&self, key: &str) -> (r: isize)
        requires
            self.wf(),
        ensures
            r == match self@.get(key@) {
                Some(n) => n,
                None => 0,
            },
    {
        match self.body.get(key) {
            Some(v) => *v,
            None => 0,
        }
    }

    /// A scalar write lands under the key `0`.
    pub fn set_as_single(&mut self, value: &str) -> (r: Result<(), ExecError>)
        requires
            old(self).wf(),
        ensures
            final(self).wf(),
            match r {
                Ok(()) => int_for(value@) matches Ok(n) && final(self)@ == old(self)@.put(
                    zero_key(),
                    n,
                ),
                Err(e) => int_for(value@) == Err::<isize, ExecErrorView>(e@) && final(self)@ == old(self)@,
            },
    {
        self.set_as_assoc(zero_text(), value)
    }

    /// A scalar append adds to the element under the key `0`.
    pub fn append_as_single(&mut self, value: &str) -> (r: Result<(), ExecError>)
        requires
            old(self).wf(),
        ensures
            final(self).wf(),
            match r {
                Ok(()) => int_for(value@) matches Ok(n) && final(self)@ == old(self)@.put(
                    zero_key(),
                    int_appended(old(self)@.get(zero_key()), n),
                ),
                Err(e) => int_for(value@) == Err::<isize, ExecErrorView>(e@) && final(self)@ == old(self)@,
            },
    {
        self.append_to_assoc_elem(zero_text(), value)
    }

    /// Writes the integer that `value` denotes under `key`.
    pub fn set_as_assoc(&mut self, key: &str, value: &str) -> (r: Result<(), ExecError>)
        requires
            old(self).wf(),
        ensures
            final(self).wf(),
            match r {
                Ok(()) => int_for(value@) matches Ok(n) && final(self)@ == old(self)@.put(key@, n),
                Err(e) => int_for(value@) == Err::<isize, ExecErrorView>(e@) && final(self)@ == old(self)@,
            },
    {
        let n = to_int(value)?;
        self.body.insert(key, n);
        Ok(())
    }

    /// Adds the integer that `value` denotes to the element under `key`.
    pub fn append_to_assoc_elem(&mut self, key: &str, value: &str) -> (r: Result<(), ExecError>)
        requires
            old(self).wf(),
        ensures
            final(self).wf(),
            match r {
                Ok(()) => int_for(value@) matches Ok(n) && final(self)@ == old(self)@.put(
                    key@,
                    int_appended(old(self)@.get(key@), n),
                ),
                Err(e) => int_for(value@) == Err::<isize, ExecErrorView>(e@) && final(self)@ == old(self)@,
            },
    {
        let n = to_int(value)?;
        match self.body.get(key) {
            Some(v) => {
                let sum = v.wrapping_add(n);
                self.body.insert(key, sum);
            },
            None => {
                self.body.insert(key, n);
            },
        }
        Ok(())
    }

    /// The numerals of the elements in the order of their keys.
    pub fn values(&self) -> (r: Vec<String>)
        requires
            self.wf(),
        ensures
            texts(r@) == self.text_view().values(),
    {
        let mut out: Vec<String> = Vec::new();
        let mut i: usize = 0;
        while i < self.body.values.len()
            invariant
                i <= self.body.values.len(),
                out.len() == i,
                forall|j: int| 0 <= j < i ==> out[j]@ == numeral(self.body.values[j]),
            decreases self.body.values.len() - i,
        {
            out.push(int_to_string(self.body.values[i] as i128));
            i += 1;
        }
        proof {
            self.body.lemma_order();
            assert forall|j: int| 0 <= j < out.len() implies texts(out@)[j]
                == self.text_view().values()[j] by {
                self.body.lemma_slot(j);
            }
            assert(texts(out@) =~= self.text_view().values());
        }
        out
    }

    /// The keys in the order in which they first came in: each key of the
    /// map once.
    pub fn keys(&self) -> (r: Vec<String>)
        requires
            self.wf(),
        ensures
            texts(r@) == self@.keys,
            forall|k: Seq<char>| texts(r@).contains(k) <==> self@.contains_key(k),
            texts(r@).no_duplicates(),
    {
        let mut out: Vec<String> = Vec::new();
        let mut i: usize = 0;
        while i < self.body.names.len()
            invariant
                i <= self.body.names.len(),
                out.len() == i,
                forall|j: int| 0 <= j < i ==> out[j]@ == self.body.names[j]@,
            decreases self.body.names.len() - i,
        {
            out.push(self.body.names[i].clone());
            i += 1;
        }
        proof {
            self.body.lemma_order();
            assert(texts(out@) =~= self@.keys);
        }
        out
    }

    /// The numeral of the element under `key`, `0` if unset; all numerals
    /// joined by a space for `@` and `*`.
    pub fn get_as_assoc(&self, key: &str) -> (r: Result<String, ExecError>)
        requires
            self.wf(),
        ensures
            r matches Ok(s) && s@ == if is_wildcard(key@) {
                joined(self.text_view().values(), seq![' '])
            } else {
                match self@.get(key@) {
                    Some(n) => numeral(n),
                    None => numeral(0),
                }
            },
    {
        proof {
            reveal_strlit(" ");
            assert(" "@ =~= seq![' ']);
        }
        if wildcard(key) {
            return Ok(join(&self.values(), " "));
        }
        Ok(int_to_string(self.int_at(key) as i128))
    }

    /// The numeral of the element under the key `0`.
    pub fn get_as_single(&self) -> (r: Result<String, ExecError>)
        requires
            self.wf(),
        ensures
            match r {
                Ok(s) => self@.get(zero_key()) matches Some(n) && s@ == numeral(n),
                Err(e) => self@.get(zero_key()) is None && e@ == ExecErrorView::Other("No entry"@),
            },
    {
        match self.body.get(zero_text()) {
            Some(v) => Ok(int_to_string(*v as i128)),
            None => Err(ExecError::Other("No entry".to_owned())),
        }
    }

    /// Whether there is an element under `key`; `@` and `*` always count.
    pub fn has_key(&self, key: &str) -> (r: Result<bool, ExecError>)
        requires
            self.wf(),
        ensures
            r matches Ok(b) && b == (is_wildcard(key@) || self@.contains_key(key@)),
    {
        if wildcard(key) {
            return Ok(true);
        }
        Ok(self.body.contains_key(key))
    }

    /// The number of elements for `@` and `*`, else the length of the numeral
    /// under `key`.
    pub fn elem_len(&self, key: &str) -> (r: Result<usize, ExecError>)
        requires
            self.wf(),
        ensures
            r matches Ok(n) && n == if is_wildcard(key@) {
                self@.keys.len()
            } else {
                match self@.get(key@) {
                    Some(v) => numeral(v).len(),
                    None => numeral(0).len(),
                }
            },
    {
        if wildcard(key) {
            return Ok(self.len());
        }
        let s = int_to_string(self.int_at(key) as i128);
        Ok(s.as_str().unicode_len())
    }

    /// Removes the element under `key`; `@` and `*` remove all.
    pub fn remove_elem(&mut self, key: &str) -> (r: Result<(), ExecError>)
        requires
            old(self).wf(),
        ensures
            final(self).wf(),
            r is Ok,
            final(self)@ == if is_wildcard(key@) {
                Ordered::<isize>::empty()
            } else {
                old(self)@.removed(key@)
            },
    {
        if wildcard(key) {
            self.clear();
            return Ok(());
        }
        self.body.remove(key);
        Ok(())
    }

    /// The same array with each integer as its numeral.
    pub fn get_str_type(&self) -> (r: AssocData)
        requires
            self.wf(),
        ensures
            r.wf(),
            r@ == self.text_view(),
    {
        let mut names: Vec<String> = Vec::new();
        let mut values: Vec<String> = Vec::new();
        let mut i: usize = 0;
        while i < self.body.names.len()
            invariant
                i <= self.body.names.len(),
                self.wf(),
                names.len() == i,
                values.len() == i,
                forall|j: int| 0 <= j < i ==> names[j]@ == self.body.names[j]@,
                forall|j: int| 0 <= j < i ==> values[j]@ == numeral(self.body.values[j]),
            decreases self.body.names.len() - i,
        {
            names.push(self.body.names[i].clone());
            values.push(int_to_string(self.body.values[i] as i128));
            i += 1;
        }
        let out = AssocData { body: NameMap { names, values } };
        proof {
            assert(out@.keys =~= self.text_view().keys);
            assert forall|k: Seq<char>| out@.map.contains_key(k) == self.text_view().map.contains_key(
                k,
            ) by {
                if out.body.has(k) {
                    let j = out.body.slot(k);
                    assert(self.body.names[j]@ == k);
                }
                if self.body.has(k) {
                    let j = self.body.slot(k);
                    assert(out.body.names[j]@ == k);
                }
            }
            assert forall|k: Seq<char>| out@.map.contains_key(k) implies out@.map[k]
                == self.text_view().map[k] by {
                let j = out.body.slot(k);
                out.body.lemma_slot(j);
                assert(self.body.names[j]@ == k);
                self.body.lemma_slot(j);
            }
            assert(out@.map =~= self.text_view().map);
        }
        out
    }
}

} // verus!
