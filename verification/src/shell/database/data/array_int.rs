//! Indexed arrays of integers: a sparse map from positions to signed words.

use vstd::prelude::*;
use crate::error::exec::{outcome, ExecError, ExecErrorView};
use crate::shell::database::data::{
    apply_in,
    layer_view,
    layer_wf,
    lookup,
    table_apply,
    table_get,
    table_put,
    Data,
    DataView,
    WriteOp,
};
use crate::utils::name_map::NameMap;
use crate::shell::database::data::array::{key_numerals, lemma_key_numerals, index_for, is_wildcard, offset_index, wildcard, ArrayData};
use crate::utils::number::{
    int_to_string,
    numeral_of,
    parse_isize,
    parse_position_spec,
    parse_spec,
    parse_usize,
};
use crate::utils::sparse_map::{dense, end_of, lemma_dense_sorted, SparseMap};
use crate::utils::text::{join, joined, str_eq, texts};

verus! {

/// What writing the text `value` to an integer gives.
pub open spec fn int_for(value: Seq<char>) -> Result<isize, ExecErrorView> {
    match parse_spec(value, isize::MIN as int, isize::MAX as int) {
        Ok(n) => Ok(n as isize),
        Err(e) => Err(ExecErrorView::ParseInt(value, e)),
    }
}

/// The position that the subscript text `key` names when it is read as a
/// plain position, without counting back from the end.
pub open spec fn position_for(key: Seq<char>) -> Option<usize> {
    match parse_position_spec(key) {
        Ok(n) => Some(n as usize),
        Err(_) => None,
    }
}

/// The value after an append: the sum for integers, wrapping on overflow.
pub open spec fn int_appended(prev: Option<isize>, n: isize) -> isize {
    match prev {
        Some(v) => v.wrapping_add(n),
        None => n,
    }
}

/// The map with each integer as its numeral.
pub open spec fn numeral_map(m: Map<usize, isize>) -> Map<usize, Seq<char>> {
    Map::new(|k: usize| m.contains_key(k), |k: usize| numeral_of(m[k] as int))
}

/// The integer array that an indexed write installs before it writes, if
/// any, and whether the promotion went through: an empty one where the name
/// is new or declared without a value, and one that keeps a scalar's value,
/// unless empty, at position 0. A scalar whose value is no numeral leaves an
/// empty array and fails.
pub open spec fn promoted_int_for_set(d: Option<DataView>) -> (
    Option<Map<usize, isize>>,
    Result<(), ExecErrorView>,
) {
    match d {
        None => (Some(Map::empty()), Ok(())),
        Some(d) => if d.is_array() {
            (
                if d.is_initialized() {
                    None
                } else {
                    Some(Map::empty())
                },
                Ok(()),
            )
        } else if d.is_assoc() {
            (None, Ok(()))
        } else {
            match d.get_as_single() {
                Ok(data) => if data.len() == 0 {
                    (Some(Map::empty()), Ok(()))
                } else {
                    match int_for(data) {
                        Ok(n) => (Some(Map::empty().insert(0, n)), Ok(())),
                        Err(e) => (Some(Map::empty()), Err(e)),
                    }
                },
                Err(e) => (None, Err(e)),
            }
        },
    }
}

/// The write of `val` at the offset `pos` of `name` in a table, after the
/// promotion to an integer array that the write calls for.
pub open spec fn set_int_elem_in(
    t: Map<Seq<char>, DataView>,
    name: Seq<char>,
    pos: isize,
    val: Seq<char>,
) -> (Map<Seq<char>, DataView>, Result<(), ExecErrorView>) {
    let (p, r) = promoted_int_for_set(lookup(t, name));
    let t1 = match p {
        Some(m) => t.insert(name, DataView::IntArray(m)),
        None => t,
    };
    match r {
        Err(e) => (t1, Err(e)),
        Ok(()) => apply_in(t1, name, WriteOp::SetAt(pos), Seq::empty(), val),
    }
}

/// The numerals of a sequence of integers.
pub open spec fn numerals(v: Seq<isize>) -> Seq<Seq<char>> {
    Seq::new(v.len(), |i: int| numeral_of(v[i] as int))
}

/// Reads the text written to an integer parameter.
pub fn to_int(value: &str) -> (r: Result<isize, ExecError>)
    ensures
        match r {
            Ok(n) => int_for(value@) == Ok::<isize, ExecErrorView>(n),
            Err(e) => int_for(value@) == Err::<isize, ExecErrorView>(e@),
        },
{
    match parse_isize(value) {
        Ok(n) => Ok(n),
        Err(e) => Err(ExecError::ParseInt(value.to_owned(), e)),
    }
}

/// An indexed array of integers.
#[derive(Debug)]
pub struct IntArrayData {
    pub body: SparseMap<isize>,
}

impl IntArrayData {
    /// The entries ascend by position, and every position fits a signed word.
    pub open spec fn wf(&self) -> bool {
        &&& self.body.wf()
        &&& self.body.end() <= isize::MAX + 1
    }

    /// The array as a map from positions to integers.
    pub open spec fn view(&self) -> Map<usize, isize> {
        self.body@
    }

    /// One more than the largest position in use; 0 for an empty array.
    pub open spec fn end(&self) -> int {
        end_of(self@.dom())
    }

    /// The positions in use, ascending.
    pub open spec fn key_seq(&self) -> Seq<usize> {
        self.body.keys@
    }

    /// The numerals of the elements in ascending order of position.
    pub open spec fn value_texts(&self) -> Seq<Seq<char>> {
        numerals(self.body.values@)
    }

    /// `end` is one more than the largest position of the map.
    pub proof fn lemma_end(&self)
        requires
            self.wf(),
        ensures
            self.end() == self.body.end(),
            forall|k: usize| self@.contains_key(k) ==> k < self.end(),
            self.end() <= isize::MAX + 1,
    {
        self.body.lemma_end();
    }

    /// The array with each element as its numeral.
    pub open spec fn text_view(&self) -> Map<usize, Seq<char>> {
        numeral_map(self@)
    }

    /// The numerals of the elements in ascending order of position.
    pub open spec fn ordered(&self) -> Seq<Seq<char>> {
        dense(self.text_view(), 0, end_of(self@.dom()), true, Seq::<char>::empty())
    }

    /// The values of the entries are the elements in ascending order of
    /// position.
    pub proof fn lemma_ordered(&self)
        requires
            self.wf(),
        ensures
            self.value_texts() == self.ordered(),
    {
        self.lemma_end();
        let n = self.body.keys.len() as int;
        assert forall|i: int| 0 <= i < n implies self.text_view()[#[trigger] self.body.keys@[i]]
            == self.value_texts()[i] by {
            self.body.lemma_index(i);
        }
        lemma_dense_sorted(
            self.body.keys@,
            self.value_texts(),
            self.text_view(),
            Seq::<char>::empty(),
            n,
        );
        assert(self.value_texts().take(n) =~= self.value_texts());
    }

    /// An array without elements.
    pub fn new() -> (r: Self)
        ensures
            r.wf(),
            r@ == Map::<usize, isize>::empty(),
    {
        IntArrayData { body: SparseMap::new() }
    }

    /// Removes every element.
    pub fn clear(&mut self)
        ensures
            final(self).wf(),
            final(self)@ == Map::<usize, isize>::empty(),
    {
        self.body.clear();
    }

    /// An array always has a value.
    pub fn is_initialized(&self) -> (r: bool)
        ensures
            r,
    {
        true
    }

    /// An array is an array.
    pub fn is_array(&self) -> (r: bool)
        ensures
            r,
    {
        true
    }

    /// The number of elements.
    pub fn len(&self) -> (n: usize)
        requires
            self.wf(),
        ensures
            n == self@.len(),
            n == self.key_seq().len(),
    {
        self.body.len()
    }

    /// One more than the largest position in use; 0 for an empty array.
    pub fn index_based_len(&self) -> (n: usize)
        requires
            self.wf(),
        ensures
            n == self.end(),
            n == end_of(self@.dom()),
    {
        proof {
            self.lemma_end();
        }
        self.body.end_position()
    }

    /// Puts `value` at position `n`.
    pub fn put(&mut self, n: usize, value: isize)
        requires
            old(self).wf(),
            n <= isize::MAX,
        ensures
            final(self).wf(),
            final(self)@ == old(self)@.insert(n, value),
    {
        let ghost before = *self;
        self.body.insert(n, value);
        proof {
            before.body.lemma_end();
            self.body.lemma_end();
            if self.body.end() > 0 {
                let top = (self.body.end() - 1) as usize;
                assert(self.body@.contains_key(top));
                assert(top == n || before.body@.contains_key(top));
            }
        }
    }

    /// The integer at position `n`, 0 where there is no element.
    pub fn int_at(&self, n: usize) -> (r: isize)
        requires
            self.wf(),
        ensures
            r == if self@.contains_key(n) {
                self@[n]
            } else {
                0
            },
    {
        match self.body.get(n) {
            Some(v) => *v,
            None => 0,
        }
    }

    /// The position that the offset `index` addresses; `key` is the text to
    /// report where it addresses none.
    pub fn resolve(&self, index: isize, key: &str) -> (r: Result<usize, ExecError>)
        requires
            self.wf(),
        ensures
            match r {
                Ok(n) => offset_index(self.end(), index as int) == Some(n) && n <= isize::MAX,
                Err(e) => offset_index(self.end(), index as int) is None && e@
                    == ExecErrorView::ArrayIndexInvalid(key@),
            },
    {
        if index >= 0 {
            return Ok(index as usize);
        }
        proof {
            self.lemma_end();
        }
        let end = self.body.end_position();
        let back: usize = (-(index + 1)) as usize + 1;
        if back > end {
            Err(ExecError::ArrayIndexInvalid(key.to_owned()))
        } else {
            Ok(end - back)
        }
    }

    /// The position that the subscript text `key` addresses.
    pub fn to_index(&self, key: &str) -> (r: Result<usize, ExecError>)
        requires
            self.wf(),
        ensures
            match r {
                Ok(n) => index_for(self.end(), key@) == Some(n) && n <= isize::MAX,
                Err(e) => index_for(self.end(), key@) is None && e@ == ExecErrorView::ArrayIndexInvalid(
                    key@,
                ),
            },
    {
        match parse_isize(key) {
            Ok(i) => self.resolve(i, key),
            Err(_) => Err(ExecError::ArrayIndexInvalid(key.to_owned())),
        }
    }

    /// The position that `key` names when read as a plain position.
    pub fn to_position(key: &str) -> (r: Result<usize, ExecError>)
        ensures
            match r {
                Ok(n) => position_for(key@) == Some(n),
                Err(e) => position_for(key@) is None && e@ == ExecErrorView::ArrayIndexInvalid(key@),
            },
    {
        match parse_usize(key) {
            Ok(n) => Ok(n),
            Err(_) => Err(ExecError::ArrayIndexInvalid(key.to_owned())),
        }
    }

    /// A scalar write lands at position 0.
    pub fn set_as_single(&mut self, value: &str) -> (r: Result<(), ExecError>)
        requires
            old(self).wf(),
        ensures
            final(self).wf(),
            match r {
                Ok(()) => int_for(value@) matches Ok(n) && final(self)@ == old(self)@.insert(0, n),
                Err(e) => int_for(value@) == Err::<isize, ExecErrorView>(e@) && final(self)@ == old(self)@,
            },
    {
        let n = to_int(value)?;
        self.put(0, n);
        Ok(())
    }

    /// A scalar append adds to the element at position 0.
    pub fn append_as_single(&mut self, value: &str) -> (r: Result<(), ExecError>)
        requires
            old(self).wf(),
        ensures
            final(self).wf(),
            match r {
                Ok(()) => int_for(value@) matches Ok(n) && final(self)@ == old(self)@.insert(
                    0,
                    if old(self)@.contains_key(0) {
                        old(self)@[0].wrapping_add(n)
                    } else {
                        n
                    },
                ),
                Err(e) => int_for(value@) == Err::<isize, ExecErrorView>(e@) && final(self)@ == old(self)@,
            },
    {
        let n = to_int(value)?;
        match self.body.get(0) {
            Some(v) => {
                let sum = v.wrapping_add(n);
                self.put(0, sum);
            },
            None => {
                self.put(0, n);
            },
        }
        Ok(())
    }

    /// Writes the integer that `value` denotes at the position that `key`
    /// addresses. A subscript that addresses nothing is reported before a
    /// value that is no numeral.
    pub fn set_as_array(&mut self, key: &str, value: &str) -> (r: Result<(), ExecError>)
        requires
            old(self).wf(),
        ensures
            final(self).wf(),
            match r {
                Ok(()) => index_for(old(self).end(), key@) matches Some(i) && int_for(value@) matches Ok(
                    n,
                ) && final(self)@ == old(self)@.insert(i, n),
                Err(e) => final(self)@ == old(self)@ && if index_for(old(self).end(), key@) is None {
                    e@ == ExecErrorView::ArrayIndexInvalid(key@)
                } else {
                    int_for(value@) == Err::<isize, ExecErrorView>(e@)
                },
            },
    {
        let i = self.to_index(key)?;
        let n = to_int(value)?;
        self.put(i, n);
        Ok(())
    }

    /// Adds the integer that `value` denotes to the element at the position
    /// that `key` addresses.
    pub fn append_to_array_elem(&mut self, key: &str, value: &str) -> (r: Result<(), ExecError>)
        requires
            old(self).wf(),
        ensures
            final(self).wf(),
            match r {
                Ok(()) => index_for(old(self).end(), key@) matches Some(i) && int_for(value@) matches Ok(
                    n,
                ) && final(self)@ == old(self)@.insert(
                    i,
                    if old(self)@.contains_key(i) {
                        old(self)@[i].wrapping_add(n)
                    } else {
                        n
                    },
                ),
                Err(e) => final(self)@ == old(self)@ && if index_for(old(self).end(), key@) is None {
                    e@ == ExecErrorView::ArrayIndexInvalid(key@)
                } else {
                    int_for(value@) == Err::<isize, ExecErrorView>(e@)
                },
            },
    {
        let i = self.to_index(key)?;
        let n = to_int(value)?;
        match self.body.get(i) {
            Some(v) => {
                let sum = v.wrapping_add(n);
                self.put(i, sum);
            },
            None => {
                self.put(i, n);
            },
        }
        Ok(())
    }

    /// Writes the integer that `value` denotes at the position that the
    /// offset `pos` addresses. An offset that addresses nothing is reported
    /// before a value that is no numeral.
    pub fn set_at(&mut self, pos: isize, value: &str) -> (r: Result<(), ExecError>)
        requires
            old(self).wf(),
        ensures
            final(self).wf(),
            match r {
                Ok(()) => offset_index(old(self).end(), pos as int) matches Some(i) && int_for(
                    value@,
                ) matches Ok(n) && final(self)@ == old(self)@.insert(i, n),
                Err(e) => final(self)@ == old(self)@ && if offset_index(old(self).end(), pos as int)
                    is None {
                    e@ == ExecErrorView::ArrayIndexInvalid(numeral_of(pos as int))
                } else {
                    int_for(value@) == Err::<isize, ExecErrorView>(e@)
                },
            },
    {
        let i = if pos >= 0 {
            pos as usize
        } else {
            let key = int_to_string(pos as i128);
            self.resolve(pos, key.as_str())?
        };
        let n = to_int(value)?;
        self.put(i, n);
        Ok(())
    }

    /// Adds the integer that `value` denotes to the element at the position
    /// that the offset `pos` addresses.
    pub fn append_at(&mut self, pos: isize, value: &str) -> (r: Result<(), ExecError>)
        requires
            old(self).wf(),
        ensures
            final(self).wf(),
            match r {
                Ok(()) => offset_index(old(self).end(), pos as int) matches Some(i) && int_for(
                    value@,
                ) matches Ok(n) && final(self)@ == old(self)@.insert(
                    i,
                    if old(self)@.contains_key(i) {
                        old(self)@[i].wrapping_add(n)
                    } else {
                        n
                    },
                ),
                Err(e) => final(self)@ == old(self)@ && if offset_index(old(self).end(), pos as int)
                    is None {
                    e@ == ExecErrorView::ArrayIndexInvalid(numeral_of(pos as int))
                } else {
                    int_for(value@) == Err::<isize, ExecErrorView>(e@)
                },
            },
    {
        let i = if pos >= 0 {
            pos as usize
        } else {
            let key = int_to_string(pos as i128);
            self.resolve(pos, key.as_str())?
        };
        let n = to_int(value)?;
        match self.body.get(i) {
            Some(v) => {
                let sum = v.wrapping_add(n);
                self.put(i, sum);
            },
            None => {
                self.put(i, n);
            },
        }
        Ok(())
    }

    /// The numerals of the elements in ascending order of position.
    pub fn values(&self) -> (r: Vec<String>)
        requires
            self.wf(),
        ensures
            texts(r@) == self.value_texts(),
            texts(r@) == self.ordered(),
    {
        proof {
            self.lemma_ordered();
        }
        let mut out: Vec<String> = Vec::new();
        let mut i: usize = 0;
        while i < self.body.values.len()
            invariant
                i <= self.body.values.len(),
                out.len() == i,
                forall|j: int| 0 <= j < i ==> out[j]@ == numeral_of(self.body.values[j] as int),
            decreases self.body.values.len() - i,
        {
            out.push(int_to_string(self.body.values[i] as i128));
            i += 1;
        }
        assert(texts(out@) =~= self.value_texts());
        out
    }

    /// The positions in use, ascending.
    pub fn keys(&self) -> (r: Vec<usize>)
        requires
            self.wf(),
        ensures
            r@ == self.key_seq(),
            forall|i: int, j: int| 0 <= i < j < r.len() ==> r[i] < r[j],
            forall|k: usize| r@.contains(k) <==> self@.contains_key(k),
    {
        let mut out: Vec<usize> = Vec::new();
        let mut i: usize = 0;
        while i < self.body.keys.len()
            invariant
                i <= self.body.keys.len(),
                out@ == self.body.keys@.take(i as int),
            decreases self.body.keys.len() - i,
        {
            out.push(self.body.keys[i]);
            i += 1;
            assert(out@ =~= self.body.keys@.take(i as int));
        }
        assert(self.body.keys@.take(self.body.keys.len() as int) =~= self.body.keys@);
        out
    }

    /// The element that `key` names: all numerals joined by a space for `@`,
    /// else the numeral at that plain position, `0` if unset.
    pub fn get_as_array(&self, key: &str, ifs: &str) -> (r: Result<String, ExecError>)
        requires
            self.wf(),
        ensures
            match r {
                Ok(s) => if key@ == seq!['@'] {
                    s@ == joined(self.ordered(), seq![' '])
                } else {
                    position_for(key@) matches Some(n) && s@ == numeral_of(
                        if self@.contains_key(n) {
                            self@[n] as int
                        } else {
                            0
                        },
                    )
                },
                Err(e) => key@ != seq!['@'] && position_for(key@) is None && e@
                    == ExecErrorView::ArrayIndexInvalid(key@),
            },
    {
        proof {
            reveal_strlit("@");
            reveal_strlit(" ");
            assert("@"@ =~= seq!['@']);
            assert(" "@ =~= seq![' ']);
        }
        if str_eq(key, "@") {
            return Ok(join(&self.values(), " "));
        }
        let n = Self::to_position(key)?;
        Ok(int_to_string(self.int_at(n) as i128))
    }

    /// The numeral of the element at position 0.
    pub fn get_as_single(&self) -> (r: Result<String, ExecError>)
        requires
            self.wf(),
        ensures
            match r {
                Ok(s) => self@.contains_key(0) && s@ == numeral_of(self@[0] as int),
                Err(e) => !self@.contains_key(0) && e@ == ExecErrorView::Other("No entry"@),
            },
    {
        match self.body.get(0) {
            Some(v) => Ok(int_to_string(*v as i128)),
            None => Err(ExecError::Other("No entry".to_owned())),
        }
    }

    /// Whether `key` addresses an element; `@` and `*` always do.
    pub fn has_key(&self, key: &str) -> (r: Result<bool, ExecError>)
        requires
            self.wf(),
        ensures
            match r {
                Ok(b) => if is_wildcard(key@) {
                    b
                } else {
                    index_for(self.end(), key@) matches Some(n) && b == self@.contains_key(n)
                },
                Err(e) => !is_wildcard(key@) && index_for(self.end(), key@) is None && e@
                    == ExecErrorView::ArrayIndexInvalid(key@),
            },
    {
        if wildcard(key) {
            return Ok(true);
        }
        let n = self.to_index(key)?;
        Ok(self.body.contains_key(n))
    }

    /// The number of elements for `@` and `*`, else the length of the numeral
    /// at the plain position `key`.
    pub fn elem_len(&self, key: &str) -> (r: Result<usize, ExecError>)
        requires
            self.wf(),
        ensures
            match r {
                Ok(n) => if is_wildcard(key@) {
                    n == self@.len()
                } else {
                    position_for(key@) matches Some(i) && n == numeral_of(
                        if self@.contains_key(i) {
                            self@[i] as int
                        } else {
                            0
                        },
                    ).len()
                },
                Err(e) => !is_wildcard(key@) && position_for(key@) is None && e@
                    == ExecErrorView::ArrayIndexInvalid(key@),
            },
    {
        if wildcard(key) {
            return Ok(self.len());
        }
        let n = Self::to_position(key)?;
        let s = int_to_string(self.int_at(n) as i128);
        Ok(s.as_str().unicode_len())
    }

    /// Removes the element at the plain position `key`; `@` and `*` remove all.
    pub fn remove_elem(&mut self, key: &str) -> (r: Result<(), ExecError>)
        requires
            old(self).wf(),
        ensures
            final(self).wf(),
            match r {
                Ok(()) => if is_wildcard(key@) {
                    final(self)@ == Map::<usize, isize>::empty()
                } else {
                    position_for(key@) matches Some(n) && final(self)@ == old(self)@.remove(n)
                },
                Err(e) => !is_wildcard(key@) && position_for(key@) is None && e@
                    == ExecErrorView::Other("invalid index"@) && final(self)@ == old(self)@,
            },
    {
        if wildcard(key) {
            self.clear();
            return Ok(());
        }
        match parse_usize(key) {
            Ok(n) => {
                let ghost before = *self;
                self.body.remove(n);
                proof {
                    before.body.lemma_end();
                    self.body.lemma_end();
                    if self.body.end() > 0 {
                        let top = (self.body.end() - 1) as usize;
                        assert(self.body@.contains_key(top));
                        assert(before.body@.contains_key(top));
                    }
                }
                Ok(())
            },
            Err(_) => Err(ExecError::Other("invalid index".to_owned())),
        }
    }

    /// The positions in use, ascending, as numerals.
    pub fn get_all_indexes_as_array(&self) -> (r: Vec<String>)
        requires
            self.wf(),
        ensures
            r.len() == self.key_seq().len(),
            forall|i: int| 0 <= i < r.len() ==> r[i]@ == numeral_of(self.key_seq()[i] as int),
            texts(r@) == key_numerals(self@.dom()),
    {
        proof {
            self.lemma_end();
        }
        let mut out: Vec<String> = Vec::new();
        let mut i: usize = 0;
        while i < self.body.keys.len()
            invariant
                i <= self.body.keys.len(),
                out.len() == i,
                forall|j: int| 0 <= j < i ==> out[j]@ == numeral_of(self.body.keys[j] as int),
            decreases self.body.keys.len() - i,
        {
            out.push(int_to_string(self.body.keys[i] as i128));
            i += 1;
        }
        proof {
            lemma_key_numerals(self.body.keys@, self@.dom(), self.end(), texts(out@));
        }
        out
    }

    /// The numerals of the elements from position `pos` on, ascending; a
    /// position without an element gives an empty text, or nothing where
    /// `skip_non` is set.
    pub fn get_vec_from(&self, pos: usize, skip_non: bool) -> (r: Vec<String>)
        requires
            self.wf(),
        ensures
            texts(r@) == dense(
                self.text_view(),
                pos as int,
                self.end(),
                skip_non,
                Seq::<char>::empty(),
            ),
    {
        proof {
            self.lemma_end();
        }
        let end = self.body.end_position();
        let mut out: Vec<String> = Vec::new();
        let mut i: usize = pos;
        while i < end
            invariant
                self.wf(),
                end == self.end(),
                pos <= i,
                i <= end || i == pos,
                texts(out@) == dense(
                    self.text_view(),
                    pos as int,
                    i as int,
                    skip_non,
                    Seq::<char>::empty(),
                ),
            decreases end - i,
        {
            let ghost prev = texts(out@);
            match self.body.get(i) {
                Some(v) => {
                    out.push(int_to_string(*v as i128));
                    assert(texts(out@) =~= prev.push(self.text_view()[i]));
                },
                None => {
                    if !skip_non {
                        out.push(String::new());
                        assert(texts(out@) =~= prev.push(Seq::<char>::empty()));
                    }
                },
            }
            i += 1;
        }
        out
    }

    /// The numerals of all elements from position 0 on.
    pub fn get_all_as_array(&self, skip_none: bool) -> (r: Vec<String>)
        requires
            self.wf(),
        ensures
            texts(r@) == dense(self.text_view(), 0, self.end(), skip_none, Seq::<char>::empty()),
    {
        self.get_vec_from(0, skip_none)
    }

    /// The same array with each integer as its numeral.
    pub fn get_str_type(&self) -> (r: ArrayData)
        requires
            self.wf(),
        ensures
            r.wf(),
            r@ == self.text_view(),
    {
        let mut out = ArrayData::new();
        let mut i: usize = 0;
        proof {
            self.body.lemma_end();
        }
        while i < self.body.keys.len()
            invariant
                i <= self.body.keys.len(),
                self.wf(),
                out.wf(),
                forall|k: usize| self@.contains_key(k) ==> k < self.end(),
                forall|k: usize|
                    out@.contains_key(k) <==> exists|j: int| 0 <= j < i && self.body.keys[j] == k,
                forall|j: int|
                    0 <= j < i ==> out@[self.body.keys[j]] == numeral_of(self.body.values[j] as int),
            decreases self.body.keys.len() - i,
        {
            proof {
                self.body.lemma_index(i as int);
            }
            out.put(self.body.keys[i], int_to_string(self.body.values[i] as i128));
            proof {
                assert forall|j: int| 0 <= j < i + 1 implies out@[self.body.keys[j]] == numeral_of(
                    self.body.values[j] as int,
                ) by {
                    if j < i {
                        assert(self.body.keys[j] < self.body.keys[i as int]);
                    }
                }
            }
            i += 1;
        }
        proof {
            assert forall|k: usize| out@.contains_key(k) == self.text_view().contains_key(k) by {
                if self@.contains_key(k) {
                    let j = self.body.keys@.index_of(k);
                    assert(self.body.keys[j] == k);
                }
            }
            assert forall|k: usize| out@.contains_key(k) implies out@[k] == self.text_view()[k] by {
                let j = choose|j: int| 0 <= j < i && self.body.keys[j] == k;
                self.body.lemma_index(j);
            }
            assert(out@ =~= self.text_view());
        }
        out
    }
}

impl IntArrayData {
    /// Declares `name` in the table as an array without a value.
    pub fn set_new_entry(db_layer: &mut NameMap<Data>, name: &str) -> (r: Result<(), ExecError>)
        requires
            layer_wf(*old(db_layer)),
        ensures
            layer_wf(*final(db_layer)),
            r is Ok,
            layer_view(*final(db_layer)) == layer_view(*old(db_layer)).insert(
                name@,
                DataView::UninitArray,
            ),
    {
        table_put(db_layer, name, Data::UninitArray);
        Ok(())
    }

    /// Writes the integer that `val` denotes at the offset `pos` of the
    /// array `name` of the table. A name that is new, or holds a scalar,
    /// becomes an integer array first.
    pub fn set_elem(db_layer: &mut NameMap<Data>, name: &str, pos: isize, val: &str) -> (r: Result<
        (),
        ExecError,
    >)
        requires
            layer_wf(*old(db_layer)),
        ensures
            layer_wf(*final(db_layer)),
            layer_view(*final(db_layer)) == set_int_elem_in(
                layer_view(*old(db_layer)),
                name@,
                pos,
                val@,
            ).0,
            outcome(r) == set_int_elem_in(layer_view(*old(db_layer)), name@, pos, val@).1,
    {
        let mut promoted: Option<IntArrayData> = None;
        let mut failure: Option<ExecError> = None;
        match table_get(db_layer, name) {
            None => {
                promoted = Some(IntArrayData::new());
            },
            Some(d) => {
                if d.is_array() {
                    if !d.is_initialized() {
                        promoted = Some(IntArrayData::new());
                    }
                } else if d.is_assoc() {
                } else {
                    let data = d.get_as_single()?;
                    let mut a = IntArrayData::new();
                    if !data.as_str().is_empty() {
                        match to_int(data.as_str()) {
                            Ok(n) => a.put(0, n),
                            Err(e) => {
                                failure = Some(e);
                            },
                        }
                    }
                    promoted = Some(a);
                }
            },
        }
        if let Some(a) = promoted {
            table_put(db_layer, name, Data::IntArray(a));
        }
        if let Some(e) = failure {
            return Err(e);
        }
        table_apply(db_layer, name, WriteOp::SetAt(pos), "", val)
    }
}

} // verus!
