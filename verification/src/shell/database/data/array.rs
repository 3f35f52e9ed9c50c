//! Indexed arrays of strings: a sparse map from positions to texts.

use vstd::prelude::*;
use crate::error::exec::{outcome, ExecError, ExecErrorView};
use crate::shell::database::data::{
    apply_in,
    layer_view,
    layer_wf,
    lookup,
    table_apply,
    table_get,
    table_put,
    Data,
    DataView,
    WriteOp,
};
use crate::utils::name_map::NameMap;
use crate::utils::number::{int_to_string, numeral_of, parse_isize, parse_spec};
use crate::utils::sparse_map::{dense, end_of, lemma_dense_sorted, SparseMap};
use crate::utils::text::{glue, join, joined, str_eq, texts};

verus! {

/// The position that an offset addresses in an array that ends at `end`:
/// the offset itself, or, for a negative one, counted back from `end`.
pub open spec fn offset_index(end: int, i: int) -> Option<usize> {
    if i >= 0 {
        Some(i as usize)
    } else if i + end >= 0 {
        Some((i + end) as usize)
    } else {
        None
    }
}

/// The position that the subscript text `key` addresses in an array that
/// ends at `end`.
pub open spec fn index_for(end: int, key: Seq<char>) -> Option<usize> {
    match parse_spec(key, isize::MIN as int, isize::MAX as int) {
        Ok(i) => offset_index(end, i),
        Err(_) => None,
    }
}

/// Whether the subscript stands for all elements.
pub open spec fn is_wildcard(key: Seq<char>) -> bool {
    key == seq!['@'] || key == seq!['*']
}

/// The numerals of the positions of `dom`, ascending.
pub open spec fn key_numerals(dom: Set<usize>) -> Seq<Seq<char>> {
    dense(
        Map::new(|k: usize| dom.contains(k), |k: usize| numeral_of(k as int)),
        0,
        end_of(dom),
        true,
        Seq::<char>::empty(),
    )
}

/// The numerals of an ascending list of positions are the numerals of the
/// positions of its set.
pub proof fn lemma_key_numerals(keys: Seq<usize>, dom: Set<usize>, end: int, out: Seq<Seq<char>>)
    requires
        forall|a: int, b: int| 0 <= a < b < keys.len() ==> keys[a] < keys[b],
        forall|k: usize| dom.contains(k) <==> keys.contains(k),
        end == end_of(dom),
        end == if keys.len() == 0 {
            0
        } else {
            keys.last() + 1
        },
        out.len() == keys.len(),
        forall|i: int| 0 <= i < keys.len() ==> out[i] == numeral_of(keys[i] as int),
    ensures
        out == key_numerals(dom),
{
    let m = Map::new(|k: usize| dom.contains(k), |k: usize| numeral_of(k as int));
    lemma_dense_sorted(keys, out, m, Seq::<char>::empty(), keys.len() as int);
    assert(out.take(keys.len() as int) =~= out);
}

/// The array that an indexed write installs before it writes, if any: an
/// empty one where the name is new or declared without a value, and one that
/// keeps a scalar's value, unless empty, at position 0. An array that is
/// there stays, and so does an associative array.
pub open spec fn promoted_for_set(d: Option<DataView>) -> Result<
    Option<Map<usize, Seq<char>>>,
    ExecErrorView,
> {
    match d {
        None => Ok(Some(Map::empty())),
        Some(d) => if d.is_array() {
            Ok(
                if d.is_initialized() {
                    None
                } else {
                    Some(Map::empty())
                },
            )
        } else if d.is_assoc() {
            Ok(None)
        } else {
            match d.get_as_single() {
                Ok(data) => Ok(
                    Some(
                        if data.len() == 0 {
                            Map::empty()
                        } else {
                            Map::empty().insert(0, data)
                        },
                    ),
                ),
                Err(e) => Err(e),
            }
        },
    }
}

/// The write of `val` at the offset `pos` of `name` in a table, after the
/// promotion that the write calls for.
pub open spec fn set_elem_in(t: Map<Seq<char>, DataView>, name: Seq<char>, pos: isize, val: Seq<char>) -> (
    Map<Seq<char>, DataView>,
    Result<(), ExecErrorView>,
) {
    match promoted_for_set(lookup(t, name)) {
        Err(e) => (t, Err(e)),
        Ok(p) => {
            let t1 = match p {
                Some(m) => t.insert(name, DataView::Array(m)),
                None => t,
            };
            apply_in(t1, name, WriteOp::SetAt(pos), Seq::empty(), val)
        },
    }
}

/// The array that an indexed append installs before it appends, if any. A
/// scalar's value goes to position 0 even where it is empty.
pub open spec fn promoted_for_append(d: Option<DataView>) -> Result<
    Option<Map<usize, Seq<char>>>,
    ExecErrorView,
> {
    match d {
        None => Ok(Some(Map::empty())),
        Some(d) => if d.is_array() {
            Ok(
                if d.is_initialized() {
                    None
                } else {
                    Some(Map::empty())
                },
            )
        } else if d.is_assoc() {
            Ok(None)
        } else {
            match d.get_as_single() {
                Ok(data) => Ok(Some(Map::empty().insert(0, data))),
                Err(e) => Err(e),
            }
        },
    }
}

/// The append of `val` at the offset `pos` of `name` in a table, after the
/// promotion that the append calls for. A name that is new is written.
pub open spec fn append_elem_in(
    t: Map<Seq<char>, DataView>,
    name: Seq<char>,
    pos: isize,
    val: Seq<char>,
) -> (Map<Seq<char>, DataView>, Result<(), ExecErrorView>) {
    match promoted_for_append(lookup(t, name)) {
        Err(e) => (t, Err(e)),
        Ok(p) => {
            let t1 = match p {
                Some(m) => t.insert(name, DataView::Array(m)),
                None => t,
            };
            apply_in(
                t1,
                name,
                if t.contains_key(name) {
                    WriteOp::AppendAt(pos)
                } else {
                    WriteOp::SetAt(pos)
                },
                Seq::empty(),
                val,
            )
        },
    }
}

/// Whether the text is `@` or `*`.
pub fn wildcard(key: &str) -> (r: bool)
    ensures
        r == is_wildcard(key@),
{
    proof {
        reveal_strlit("@");
        reveal_strlit("*");
    }
    let r = str_eq(key, "@") || str_eq(key, "*");
    assert(r == is_wildcard(key@)) by {
        assert("@"@ =~= seq!['@']);
        assert("*"@ =~= seq!['*']);
    }
    r
}

/// An indexed array of strings.
#[derive(Debug)]
pub struct ArrayData {
    pub body: SparseMap<String>,
}

impl ArrayData {
    /// The entries ascend by position, and every position fits a signed word.
    pub open spec fn wf(&self) -> bool {
        &&& self.body.wf()
        &&& self.body.end() <= isize::MAX + 1
    }

    /// The array as a map from positions to texts.
    pub open spec fn view(&self) -> Map<usize, Seq<char>> {
        Map::new(|k: usize| self.body@.contains_key(k), |k: usize| self.body@[k]@)
    }

    /// One more than the largest position in use; 0 for an empty array.
    pub open spec fn end(&self) -> int {
        end_of(self@.dom())
    }

    /// The positions in use, ascending.
    pub open spec fn key_seq(&self) -> Seq<usize> {
        self.body.keys@
    }

    /// The elements in ascending order of position.
    pub open spec fn value_texts(&self) -> Seq<Seq<char>> {
        texts(self.body.values@)
    }

    /// `end` is one more than the largest position of the map.
    pub proof fn lemma_end(&self)
        requires
            self.wf(),
        ensures
            self.end() == self.body.end(),
            forall|k: usize| self@.contains_key(k) ==> k < self.end(),
            self.end() <= isize::MAX + 1,
    {
        self.body.lemma_end();
        assert(self@.dom() =~= self.body@.dom());
    }

    /// The elements in ascending order of position.
    pub open spec fn ordered(&self) -> Seq<Seq<char>> {
        dense(self@, 0, end_of(self@.dom()), true, Seq::<char>::empty())
    }

    /// The values of the entries are the elements in ascending order of
    /// position.
    pub proof fn lemma_ordered(&self)
        requires
            self.wf(),
        ensures
            self.value_texts() == self.ordered(),
    {
        self.lemma_end();
        let n = self.body.keys.len() as int;
        assert forall|i: int| 0 <= i < n implies self@[#[trigger] self.body.keys@[i]]
            == self.value_texts()[i] by {
            self.body.lemma_index(i);
        }
        lemma_dense_sorted(self.body.keys@, self.value_texts(), self@, Seq::<char>::empty(), n);
        assert(self.value_texts().take(n) =~= self.value_texts());
    }

    /// An array without elements.
    pub fn new() -> (r: Self)
        ensures
            r.wf(),
            r@ == Map::<usize, Seq<char>>::empty(),
    {
        let r = ArrayData { body: SparseMap::new() };
        assert(r@ =~= Map::<usize, Seq<char>>::empty());
        r
    }

    /// The array that holds `v[i]` at position `i`.
    pub fn from_values(v: Vec<String>) -> (r: Self)
        requires
            v.len() <= isize::MAX,
        ensures
            r.wf(),
            r.value_texts() == texts(v@),
            r@ == Map::new(|k: usize| k < v.len(), |k: usize| v[k as int]@),
    {
        let mut keys: Vec<usize> = Vec::new();
        let mut i: usize = 0;
        while i < v.len()
            invariant
                i <= v.len(),
                keys.len() == i,
                forall|j: int| 0 <= j < i ==> keys[j] == j,
            decreases v.len() - i,
        {
            keys.push(i);
            i += 1;
        }
        let r = ArrayData { body: SparseMap { keys, values: v } };
        proof {
            let target = Map::new(|k: usize| k < v.len(), |k: usize| v[k as int]@);
            assert forall|k: usize| r@.contains_key(k) == target.contains_key(k) by {
                if k < v.len() {
                    assert(r.body.keys@[k as int] == k);
                }
            }
            assert forall|k: usize| r@.contains_key(k) implies r@[k] == target[k] by {
                assert(r.body.keys@[k as int] == k);
                r.body.lemma_index(k as int);
            }
            assert(r@ =~= target);
        }
        r
    }

    /// Removes every element.
    pub fn clear(&mut self)
        ensures
            final(self).wf(),
            final(self)@ == Map::<usize, Seq<char>>::empty(),
    {
        self.body.clear();
        assert(self@ =~= Map::<usize, Seq<char>>::empty());
    }

    /// An array always has a value.
    pub fn is_initialized(&self) -> (r: bool)
        ensures
            r,
    {
        true
    }

    /// An array is an array.
    pub fn is_array(&self) -> (r: bool)
        ensures
            r,
    {
        true
    }

    /// The number of elements.
    pub fn len(&self) -> (n: usize)
        requires
            self.wf(),
        ensures
            n == self@.len(),
            n == self.key_seq().len(),
    {
        proof {
            assert(self@.dom() =~= self.body@.dom());
        }
        self.body.len()
    }

    /// One more than the largest position in use; 0 for an empty array.
    pub fn index_based_len(&self) -> (n: usize)
        requires
            self.wf(),
        ensures
            n == self.end(),
            n == end_of(self@.dom()),
    {
        proof {
            self.lemma_end();
        }
        self.body.end_position()
    }

    /// Puts `value` at position `n`.
    pub fn put(&mut self, n: usize, value: String)
        requires
            old(self).wf(),
            n <= isize::MAX,
        ensures
            final(self).wf(),
            final(self)@ == old(self)@.insert(n, value@),
    {
        let ghost before = *self;
        self.body.insert(n, value);
        proof {
            before.body.lemma_end();
            self.body.lemma_end();
            if self.body.end() > 0 {
                let top = (self.body.end() - 1) as usize;
                assert(self.body@.contains_key(top));
                assert(top == n || before.body@.contains_key(top));
            }
            assert(self@ =~= before@.insert(n, value@));
        }
    }

    /// The text at position `n`, empty where there is no element.
    pub fn text_at(&self, n: usize) -> (r: String)
        requires
            self.wf(),
        ensures
            r@ == if self@.contains_key(n) {
                self@[n]
            } else {
                Seq::<char>::empty()
            },
    {
        match self.body.get(n) {
            Some(s) => s.clone(),
            None => String::new(),
        }
    }

    /// The position that the offset `index` addresses; `key` is the text to
    /// report where it addresses none.
    pub fn resolve(&self, index: isize, key: &str) -> (r: Result<usize, ExecError>)
        requires
            self.wf(),
        ensures
            match r {
                Ok(n) => offset_index(self.end(), index as int) == Some(n) && n <= isize::MAX,
                Err(e) => offset_index(self.end(), index as int) is None && e@
                    == ExecErrorView::ArrayIndexInvalid(key@),
            },
    {
        if index >= 0 {
            return Ok(index as usize);
        }
        proof {
            self.lemma_end();
        }
        let end = self.body.end_position();
        let back: usize = (-(index + 1)) as usize + 1;
        if back > end {
            Err(ExecError::ArrayIndexInvalid(key.to_owned()))
        } else {
            Ok(end - back)
        }
    }

    /// The position that the subscript text `key` addresses.
    pub fn to_index(&self, key: &str) -> (r: Result<usize, ExecError>)
        requires
            self.wf(),
        ensures
            match r {
                Ok(n) => index_for(self.end(), key@) == Some(n) && n <= isize::MAX,
                Err(e) => index_for(self.end(), key@) is None && e@ == ExecErrorView::ArrayIndexInvalid(
                    key@,
                ),
            },
    {
        match parse_isize(key) {
            Ok(i) => self.resolve(i, key),
            Err(_) => Err(ExecError::ArrayIndexInvalid(key.to_owned())),
        }
    }

    /// A scalar write lands at position 0.
    pub fn set_as_single(&mut self, value: &str) -> (r: Result<(), ExecError>)
        requires
            old(self).wf(),
        ensures
            final(self).wf(),
            r is Ok,
            final(self)@ == old(self)@.insert(0, value@),
    {
        self.put(0, value.to_owned());
        Ok(())
    }

    /// A scalar append extends the element at position 0.
    pub fn append_as_single(&mut self, value: &str) -> (r: Result<(), ExecError>)
        requires
            old(self).wf(),
        ensures
            final(self).wf(),
            r is Ok,
            final(self)@ == old(self)@.insert(
                0,
                if old(self)@.contains_key(0) {
                    old(self)@[0] + value@
                } else {
                    value@
                },
            ),
    {
        let prev = self.text_at(0);
        assert(Seq::<char>::empty() + value@ =~= value@);
        self.put(0, glue(prev.as_str(), value));
        Ok(())
    }

    /// Writes `value` at the position that `key` addresses.
    pub fn set_as_array(&mut self, key: &str, value: &str) -> (r: Result<(), ExecError>)
        requires
            old(self).wf(),
        ensures
            final(self).wf(),
            match r {
                Ok(()) => index_for(old(self).end(), key@) matches Some(n) && final(self)@ == old(self)@.insert(n, value@),
                Err(e) => index_for(old(self).end(), key@) is None && e@
                    == ExecErrorView::ArrayIndexInvalid(key@) && final(self)@ == old(self)@,
            },
    {
        let n = self.to_index(key)?;
        self.put(n, value.to_owned());
        Ok(())
    }

    /// Extends the element at the position that `key` addresses by `value`.
    pub fn append_to_array_elem(&mut self, key: &str, value: &str) -> (r: Result<(), ExecError>)
        requires
            old(self).wf(),
        ensures
            final(self).wf(),
            match r {
                Ok(()) => index_for(old(self).end(), key@) matches Some(n) && final(self)@ == old(self)@.insert(
                    n,
                    if old(self)@.contains_key(n) {
                        old(self)@[n] + value@
                    } else {
                        value@
                    },
                ),
                Err(e) => index_for(old(self).end(), key@) is None && e@
                    == ExecErrorView::ArrayIndexInvalid(key@) && final(self)@ == old(self)@,
            },
    {
        let n = self.to_index(key)?;
        let prev = self.text_at(n);
        assert(Seq::<char>::empty() + value@ =~= value@);
        self.put(n, glue(prev.as_str(), value));
        Ok(())
    }

    /// Writes `value` at the position that the offset `pos` addresses.
    pub fn set_at(&mut self, pos: isize, value: &str) -> (r: Result<(), ExecError>)
        requires
            old(self).wf(),
        ensures
            final(self).wf(),
            match r {
                Ok(()) => offset_index(old(self).end(), pos as int) matches Some(n) && final(self)@
                    == old(self)@.insert(n, value@),
                Err(e) => offset_index(old(self).end(), pos as int) is None && e@
                    == ExecErrorView::ArrayIndexInvalid(numeral_of(pos as int)) && final(self)@ == old(self)@,
            },
    {
        let n = if pos >= 0 {
            pos as usize
        } else {
            let key = int_to_string(pos as i128);
            self.resolve(pos, key.as_str())?
        };
        self.put(n, value.to_owned());
        Ok(())
    }

    /// Extends the element at the position that the offset `pos` addresses
    /// by `value`.
    pub fn append_at(&mut self, pos: isize, value: &str) -> (r: Result<(), ExecError>)
        requires
            old(self).wf(),
        ensures
            final(self).wf(),
            match r {
                Ok(()) => offset_index(old(self).end(), pos as int) matches Some(n) && final(self)@
                    == old(self)@.insert(
                    n,
                    if old(self)@.contains_key(n) {
                        old(self)@[n] + value@
                    } else {
                        value@
                    },
                ),
                Err(e) => offset_index(old(self).end(), pos as int) is None && e@
                    == ExecErrorView::ArrayIndexInvalid(numeral_of(pos as int)) && final(self)@ == old(self)@,
            },
    {
        let n = if pos >= 0 {
            pos as usize
        } else {
            let key = int_to_string(pos as i128);
            self.resolve(pos, key.as_str())?
        };
        let prev = self.text_at(n);
        assert(Seq::<char>::empty() + value@ =~= value@);
        self.put(n, glue(prev.as_str(), value));
        Ok(())
    }

    /// The elements in ascending order of position.
    pub fn values(&self) -> (r: Vec<String>)
        requires
            self.wf(),
        ensures
            texts(r@) == self.value_texts(),
            texts(r@) == self.ordered(),
    {
        proof {
            self.lemma_ordered();
        }
        let mut out: Vec<String> = Vec::new();
        let mut i: usize = 0;
        while i < self.body.values.len()
            invariant
                i <= self.body.values.len(),
                out.len() == i,
                forall|j: int| 0 <= j < i ==> out[j]@ == self.body.values[j]@,
            decreases self.body.values.len() - i,
        {
            out.push(self.body.values[i].clone());
            i += 1;
        }
        assert(texts(out@) =~= self.value_texts());
        out
    }

    /// The positions in use, ascending.
    pub fn keys(&self) -> (r: Vec<usize>)
        requires
            self.wf(),
        ensures
            r@ == self.key_seq(),
            forall|i: int, j: int| 0 <= i < j < r.len() ==> r[i] < r[j],
            forall|k: usize| r@.contains(k) <==> self@.contains_key(k),
    {
        let mut out: Vec<usize> = Vec::new();
        let mut i: usize = 0;
        while i < self.body.keys.len()
            invariant
                i <= self.body.keys.len(),
                out@ == self.body.keys@.take(i as int),
            decreases self.body.keys.len() - i,
        {
            out.push(self.body.keys[i]);
            i += 1;
            assert(out@ =~= self.body.keys@.take(i as int));
        }
        assert(self.body.keys@.take(self.body.keys.len() as int) =~= self.body.keys@);
        out
    }

    /// The element that `key` addresses: all elements joined for `@` (by a
    /// space) and `*` (by `ifs`), else the one element, empty if unset.
    pub fn get_as_array(&self, key: &str, ifs: &str) -> (r: Result<String, ExecError>)
        requires
            self.wf(),
        ensures
            match r {
                Ok(s) => if key@ == seq!['@'] {
                    s@ == joined(self.ordered(), seq![' '])
                } else if key@ == seq!['*'] {
                    s@ == joined(self.ordered(), ifs@)
                } else {
                    index_for(self.end(), key@) matches Some(n) && s@ == if self@.contains_key(n) {
                        self@[n]
                    } else {
                        Seq::<char>::empty()
                    }
                },
                Err(e) => !is_wildcard(key@) && index_for(self.end(), key@) is None && e@
                    == ExecErrorView::ArrayIndexInvalid(key@),
            },
    {
        proof {
            reveal_strlit("@");
            reveal_strlit("*");
            reveal_strlit(" ");
            assert("@"@ =~= seq!['@']);
            assert("*"@ =~= seq!['*']);
            assert(" "@ =~= seq![' ']);
        }
        if str_eq(key, "@") {
            return Ok(join(&self.values(), " "));
        }
        if str_eq(key, "*") {
            return Ok(join(&self.values(), ifs));
        }
        let n = self.to_index(key)?;
        Ok(self.text_at(n))
    }

    /// The element at position 0.
    pub fn get_as_single(&self) -> (r: Result<String, ExecError>)
        requires
            self.wf(),
        ensures
            match r {
                Ok(s) => self@.contains_key(0) && s@ == self@[0],
                Err(e) => !self@.contains_key(0) && e@ == ExecErrorView::Other("No entry"@),
            },
    {
        match self.body.get(0) {
            Some(s) => Ok(s.clone()),
            None => Err(ExecError::Other("No entry".to_owned())),
        }
    }

    /// Whether `key` addresses an element; `@` and `*` always do.
    pub fn has_key(&self, key: &str) -> (r: Result<bool, ExecError>)
        requires
            self.wf(),
        ensures
            match r {
                Ok(b) => if is_wildcard(key@) {
                    b
                } else {
                    index_for(self.end(), key@) matches Some(n) && b == self@.contains_key(n)
                },
                Err(e) => !is_wildcard(key@) && index_for(self.end(), key@) is None && e@
                    == ExecErrorView::ArrayIndexInvalid(key@),
            },
    {
        if wildcard(key) {
            return Ok(true);
        }
        let n = self.to_index(key)?;
        Ok(self.body.contains_key(n))
    }

    /// The number of elements for `@` and `*`, else the number of characters
    /// of the element that `key` addresses.
    pub fn elem_len(&self, key: &str) -> (r: Result<usize, ExecError>)
        requires
            self.wf(),
        ensures
            match r {
                Ok(n) => if is_wildcard(key@) {
                    n == self@.len()
                } else {
                    index_for(self.end(), key@) matches Some(i) && n == if self@.contains_key(i) {
                        self@[i].len()
                    } else {
                        0
                    }
                },
                Err(e) => !is_wildcard(key@) && index_for(self.end(), key@) is None && e@
                    == ExecErrorView::ArrayIndexInvalid(key@),
            },
    {
        if wildcard(key) {
            return Ok(self.len());
        }
        let n = self.to_index(key)?;
        let s = self.text_at(n);
        Ok(s.as_str().unicode_len())
    }

    /// Removes the element that `key` addresses; `@` and `*` remove all.
    pub fn remove_elem(&mut self, key: &str) -> (r: Result<(), ExecError>)
        requires
            old(self).wf(),
        ensures
            final(self).wf(),
            match r {
                Ok(()) => if is_wildcard(key@) {
                    final(self)@ == Map::<usize, Seq<char>>::empty()
                } else {
                    index_for(old(self).end(), key@) matches Some(n) && final(self)@ == old(self)@.remove(n)
                },
                Err(e) => !is_wildcard(key@) && index_for(old(self).end(), key@) is None && e@
                    == ExecErrorView::ArrayIndexInvalid(key@) && final(self)@ == old(self)@,
            },
    {
        if wildcard(key) {
            self.clear();
            return Ok(());
        }
        let n = self.to_index(key)?;
        let ghost before = *self;
        self.body.remove(n);
        proof {
            before.body.lemma_end();
            self.body.lemma_end();
            if self.body.end() > 0 {
                let top = (self.body.end() - 1) as usize;
                assert(self.body@.contains_key(top));
                assert(before.body@.contains_key(top));
            }
            assert(self@ =~= before@.remove(n));
        }
        Ok(())
    }

    /// The positions in use, ascending, as numerals.
    pub fn get_all_indexes_as_array(&self) -> (r: Vec<String>)
        requires
            self.wf(),
        ensures
            r.len() == self.key_seq().len(),
            forall|i: int| 0 <= i < r.len() ==> r[i]@ == numeral_of(self.key_seq()[i] as int),
            texts(r@) == key_numerals(self@.dom()),
    {
        proof {
            self.lemma_end();
        }
        let mut out: Vec<String> = Vec::new();
        let mut i: usize = 0;
        while i < self.body.keys.len()
            invariant
                i <= self.body.keys.len(),
                out.len() == i,
                forall|j: int| 0 <= j < i ==> out[j]@ == numeral_of(self.body.keys[j] as int),
            decreases self.body.keys.len() - i,
        {
            out.push(int_to_string(self.body.keys[i] as i128));
            i += 1;
        }
        proof {
            lemma_key_numerals(self.body.keys@, self@.dom(), self.end(), texts(out@));
        }
        out
    }

    /// A copy of the array.
    pub fn duplicate(&self) -> (r: Self)
        requires
            self.wf(),
        ensures
            r.wf(),
            r@ == self@,
    {
        let keys = self.keys();
        let values = self.values();
        let r = ArrayData { body: SparseMap { keys, values } };
        proof {
            assert(texts(values@).len() == values.len());
            assert(self.value_texts().len() == self.body.values.len());
            assert(r.body.wf());
            assert forall|k: usize| r@.contains_key(k) implies r@[k] == self@[k] by {
                let j = r.body.keys@.index_of(k);
                r.body.lemma_index(j);
                self.body.lemma_index(j);
                assert(texts(values@)[j] == self.value_texts()[j]);
            }
            assert(r@ =~= self@);
        }
        r
    }

    /// The elements from position `pos` on, ascending; a position without an
    /// element gives an empty text, or nothing where `skip_non` is set.
    pub fn get_vec_from(&self, pos: usize, skip_non: bool) -> (r: Vec<String>)
        requires
            self.wf(),
        ensures
            texts(r@) == dense(self@, pos as int, self.end(), skip_non, Seq::<char>::empty()),
    {
        proof {
            self.lemma_end();
        }
        let end = self.body.end_position();
        let mut out: Vec<String> = Vec::new();
        let mut i: usize = pos;
        while i < end
            invariant
                self.wf(),
                end == self.end(),
                pos <= i,
                i <= end || i == pos,
                texts(out@) == dense(self@, pos as int, i as int, skip_non, Seq::<char>::empty()),
            decreases end - i,
        {
            let ghost prev = texts(out@);
            match self.body.get(i) {
                Some(s) => {
                    out.push(s.clone());
                    assert(texts(out@) =~= prev.push(self@[i]));
                },
                None => {
                    if !skip_non {
                        out.push(String::new());
                        assert(texts(out@) =~= prev.push(Seq::<char>::empty()));
                    }
                },
            }
            i += 1;
        }
        out
    }
}

impl ArrayData {
    /// Declares `name` in the table: without a value where `v` is `None`,
    /// else as the array of the values of `v`.
    pub fn set_new_entry(db_layer: &mut NameMap<Data>, name: &str, v: Option<Vec<String>>) -> (r:
        Result<(), ExecError>)
        requires
            layer_wf(*old(db_layer)),
            v matches Some(vs) ==> vs.len() <= isize::MAX,
        ensures
            layer_wf(*final(db_layer)),
            r is Ok,
            layer_view(*final(db_layer)) == layer_view(*old(db_layer)).insert(
                name@,
                match v {
                    Some(vs) => DataView::Array(
                        Map::new(|k: usize| k < vs.len(), |k: usize| vs[k as int]@),
                    ),
                    None => DataView::UninitArray,
                },
            ),
    {
        match v {
            None => table_put(db_layer, name, Data::UninitArray),
            Some(vs) => table_put(db_layer, name, Data::Array(ArrayData::from_values(vs))),
        }
        Ok(())
    }

    /// Writes `val` at the offset `pos` of the array `name` of the table. A
    /// name that is new, or holds a scalar, becomes an array first.
    pub fn set_elem(db_layer: &mut NameMap<Data>, name: &str, pos: isize, val: &str) -> (r: Result<
        (),
        ExecError,
    >)
        requires
            layer_wf(*old(db_layer)),
        ensures
            layer_wf(*final(db_layer)),
            layer_view(*final(db_layer)) == set_elem_in(layer_view(*old(db_layer)), name@, pos, val@).0,
            outcome(r) == set_elem_in(layer_view(*old(db_layer)), name@, pos, val@).1,
    {
        let mut promoted: Option<ArrayData> = None;
        match table_get(db_layer, name) {
            None => {
                promoted = Some(ArrayData::new());
            },
            Some(d) => {
                if d.is_array() {
                    if !d.is_initialized() {
                        promoted = Some(ArrayData::new());
                    }
                } else if d.is_assoc() {
                } else {
                    let data = d.get_as_single()?;
                    let mut a = ArrayData::new();
                    if !data.as_str().is_empty() {
                        a.put(0, data);
                    }
                    promoted = Some(a);
                }
            },
        }
        if let Some(a) = promoted {
            table_put(db_layer, name, Data::Array(a));
        }
        table_apply(db_layer, name, WriteOp::SetAt(pos), "", val)
    }

    /// Appends `val` to the element at the offset `pos` of the array `name`
    /// of the table. A name that holds a scalar becomes an array first; a
    /// name that is new is written.
    pub fn append_elem(db_layer: &mut NameMap<Data>, name: &str, pos: isize, val: &str) -> (r: Result<
        (),
        ExecError,
    >)
        requires
            layer_wf(*old(db_layer)),
        ensures
            layer_wf(*final(db_layer)),
            layer_view(*final(db_layer)) == append_elem_in(
                layer_view(*old(db_layer)),
                name@,
                pos,
                val@,
            ).0,
            outcome(r) == append_elem_in(layer_view(*old(db_layer)), name@, pos, val@).1,
    {
        let mut promoted: Option<ArrayData> = None;
        let mut op = WriteOp::AppendAt(pos);
        match table_get(db_layer, name) {
            None => {
                promoted = Some(ArrayData::new());
                op = WriteOp::SetAt(pos);
            },
            Some(d) => {
                if d.is_array() {
                    if !d.is_initialized() {
                        promoted = Some(ArrayData::new());
                    }
                } else if d.is_assoc() {
                } else {
                    let data = d.get_as_single()?;
                    let mut a = ArrayData::new();
                    a.put(0, data);
                    promoted = Some(a);
                }
            },
        }
        if let Some(a) = promoted {
            table_put(db_layer, name, Data::Array(a));
        }
        table_apply(db_layer, name, op, "", val)
    }
}

} // verus!
