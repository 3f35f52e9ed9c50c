//! The storage variants of a parameter: a closed set, each operation of the
//! store defined on every one of them.

pub mod array;
pub mod array_int;
pub mod assoc;
pub mod assoc_int;

use vstd::prelude::*;
use crate::error::exec::{ExecError, ExecErrorView};
use crate::shell::database::data::array::{
    index_for,
    is_wildcard,
    key_numerals,
    offset_index,
    ArrayData,
};
use crate::shell::database::data::array_int::{
    int_appended,
    int_for,
    numeral_map,
    position_for,
    to_int,
    IntArrayData,
};
use crate::shell::database::data::assoc::{text_appended, zero_key, zero_text, AssocData};
use crate::shell::database::data::assoc_int::{numeral, IntAssocData};
use crate::utils::name_map::{NameMap, Ordered};
use crate::utils::number::{int_to_string, numeral_of};
use crate::utils::sparse_map::{dense, end_of};
use crate::utils::text::{glue, join, joined, str_eq, texts};

verus! {

/// What a parameter holds: one of the storage variants.
#[derive(Debug)]
pub enum Data {
    /// Declared as an indexed array, nothing assigned yet.
    UninitArray,
    /// Declared as an associative array, nothing assigned yet.
    UninitAssoc,
    /// A string.
    Single(String),
    /// An integer.
    Int(isize),
    /// An indexed array of strings.
    Array(ArrayData),
    /// An indexed array of integers.
    IntArray(IntArrayData),
    /// An associative array of strings.
    Assoc(AssocData),
    /// An associative array of integers.
    IntAssoc(IntAssocData),
}

/// What a parameter holds, as plain values.
pub enum DataView {
    UninitArray,
    UninitAssoc,
    Single(Seq<char>),
    Int(isize),
    Array(Map<usize, Seq<char>>),
    IntArray(Map<usize, isize>),
    Assoc(Ordered<Seq<char>>),
    IntAssoc(Ordered<isize>),
}

/// The writes that a value takes.
#[derive(Clone, Copy, Debug, PartialEq, Eq, Structural)]
pub enum WriteOp {
    /// Replace the scalar value.
    SetSingle,
    /// Extend the scalar value.
    AppendSingle,
    /// Replace the element at an offset: a position of an indexed array,
    /// counted back from its end where negative; the numeral as the key of
    /// an associative array.
    SetAt(isize),
    /// Extend the element at an offset.
    AppendAt(isize),
    /// Replace an element of an indexed array.
    SetArray,
    /// Extend an element of an indexed array.
    AppendArray,
    /// Replace an element of an associative array.
    SetAssoc,
    /// Extend an element of an associative array.
    AppendAssoc,
    /// Remove an element.
    Remove,
}

/// What a map holds under a key, if anything.
pub open spec fn lookup<K, V>(m: Map<K, V>, k: K) -> Option<V> {
    if m.contains_key(k) {
        Some(m[k])
    } else {
        None
    }
}

/// The failure of an operation that the variant does not have.
pub open spec fn unsupported(what: Seq<char>) -> ExecErrorView {
    ExecErrorView::Other(what)
}

impl DataView {
    /// Whether the variant is an indexed array, declared or with a value.
    pub open spec fn is_array(self) -> bool {
        self is UninitArray || self is Array || self is IntArray
    }

    /// Whether the variant is an associative array, declared or with a value.
    pub open spec fn is_assoc(self) -> bool {
        self is UninitAssoc || self is Assoc || self is IntAssoc
    }

    /// Whether the variant is a scalar.
    pub open spec fn is_single(self) -> bool {
        self is Single || self is Int
    }

    /// Whether the variant is an integer scalar.
    pub open spec fn is_single_num(self) -> bool {
        self is Int
    }

    /// Whether the variant has a value: all but the declared containers.
    pub open spec fn is_initialized(self) -> bool {
        !(self is UninitArray || self is UninitAssoc)
    }

    /// The variant with nothing in it.
    pub open spec fn cleared(self) -> DataView {
        match self {
            DataView::Single(_) => DataView::Single(Seq::empty()),
            DataView::Int(_) => DataView::Int(0),
            DataView::Array(_) => DataView::Array(Map::empty()),
            DataView::IntArray(_) => DataView::IntArray(Map::empty()),
            DataView::Assoc(_) => DataView::Assoc(Ordered::empty()),
            DataView::IntAssoc(_) => DataView::IntAssoc(Ordered::empty()),
            _ => self,
        }
    }

    /// A scalar write: the whole value of a scalar, the element `0` of a
    /// container.
    pub open spec fn set_as_single(self, value: Seq<char>) -> Result<DataView, ExecErrorView> {
        match self {
            DataView::Single(_) => Ok(DataView::Single(value)),
            DataView::Int(_) => match int_for(value) {
                Ok(n) => Ok(DataView::Int(n)),
                Err(e) => Err(e),
            },
            DataView::Array(m) => Ok(DataView::Array(m.insert(0, value))),
            DataView::IntArray(m) => match int_for(value) {
                Ok(n) => Ok(DataView::IntArray(m.insert(0, n))),
                Err(e) => Err(e),
            },
            DataView::Assoc(m) => Ok(DataView::Assoc(m.put(zero_key(), value))),
            DataView::IntAssoc(m) => match int_for(value) {
                Ok(n) => Ok(DataView::IntAssoc(m.put(zero_key(), n))),
                Err(e) => Err(e),
            },
            _ => Err(unsupported("Undefined call set_as_single"@)),
        }
    }

    /// A scalar append: to the whole value of a scalar, to the element `0`
    /// of a container.
    pub open spec fn append_as_single(self, value: Seq<char>) -> Result<DataView, ExecErrorView> {
        match self {
            DataView::Single(s) => Ok(DataView::Single(s + value)),
            DataView::Int(v) => match int_for(value) {
                Ok(n) => Ok(DataView::Int(v.wrapping_add(n))),
                Err(e) => Err(e),
            },
            DataView::Array(m) => Ok(
                DataView::Array(m.insert(0, text_appended(lookup(m, 0), value))),
            ),
            DataView::IntArray(m) => match int_for(value) {
                Ok(n) => Ok(DataView::IntArray(m.insert(0, int_appended(lookup(m, 0), n)))),
                Err(e) => Err(e),
            },
            DataView::Assoc(m) => Ok(
                DataView::Assoc(m.put(zero_key(), text_appended(m.get(zero_key()), value))),
            ),
            DataView::IntAssoc(m) => match int_for(value) {
                Ok(n) => Ok(DataView::IntAssoc(m.put(zero_key(), int_appended(m.get(zero_key()), n)))),
                Err(e) => Err(e),
            },
            _ => Err(unsupported("Undefined call append_as_single"@)),
        }
    }

    /// A write to the element at the offset `pos`.
    pub open spec fn set_at(self, pos: isize, value: Seq<char>) -> Result<DataView, ExecErrorView> {
        match self {
            DataView::Array(m) => match offset_index(end_of(m.dom()), pos as int) {
                Some(i) => Ok(DataView::Array(m.insert(i, value))),
                None => Err(ExecErrorView::ArrayIndexInvalid(numeral(pos))),
            },
            DataView::IntArray(m) => match offset_index(end_of(m.dom()), pos as int) {
                Some(i) => match int_for(value) {
                    Ok(n) => Ok(DataView::IntArray(m.insert(i, n))),
                    Err(e) => Err(e),
                },
                None => Err(ExecErrorView::ArrayIndexInvalid(numeral(pos))),
            },
            _ => self.set_as_assoc(numeral(pos), value),
        }
    }

    /// An append to the element at the offset `pos`.
    pub open spec fn append_at(self, pos: isize, value: Seq<char>) -> Result<DataView, ExecErrorView> {
        match self {
            DataView::Array(m) => match offset_index(end_of(m.dom()), pos as int) {
                Some(i) => Ok(DataView::Array(m.insert(i, text_appended(lookup(m, i), value)))),
                None => Err(ExecErrorView::ArrayIndexInvalid(numeral(pos))),
            },
            DataView::IntArray(m) => match offset_index(end_of(m.dom()), pos as int) {
                Some(i) => match int_for(value) {
                    Ok(n) => Ok(DataView::IntArray(m.insert(i, int_appended(lookup(m, i), n)))),
                    Err(e) => Err(e),
                },
                None => Err(ExecErrorView::ArrayIndexInvalid(numeral(pos))),
            },
            _ => self.append_to_assoc_elem(numeral(pos), value),
        }
    }

    /// A write to the element of an indexed array that `key` addresses.
    pub open spec fn set_as_array(self, key: Seq<char>, value: Seq<char>) -> Result<
        DataView,
        ExecErrorView,
    > {
        match self {
            DataView::Array(m) => match index_for(end_of(m.dom()), key) {
                Some(i) => Ok(DataView::Array(m.insert(i, value))),
                None => Err(ExecErrorView::ArrayIndexInvalid(key)),
            },
            DataView::IntArray(m) => match index_for(end_of(m.dom()), key) {
                Some(i) => match int_for(value) {
                    Ok(n) => Ok(DataView::IntArray(m.insert(i, n))),
                    Err(e) => Err(e),
                },
                None => Err(ExecErrorView::ArrayIndexInvalid(key)),
            },
            _ => Err(unsupported("not an array"@)),
        }
    }

    /// An append to the element of an indexed array that `key` addresses.
    pub open spec fn append_to_array_elem(self, key: Seq<char>, value: Seq<char>) -> Result<
        DataView,
        ExecErrorView,
    > {
        match self {
            DataView::Array(m) => match index_for(end_of(m.dom()), key) {
                Some(i) => Ok(DataView::Array(m.insert(i, text_appended(lookup(m, i), value)))),
                None => Err(ExecErrorView::ArrayIndexInvalid(key)),
            },
            DataView::IntArray(m) => match index_for(end_of(m.dom()), key) {
                Some(i) => match int_for(value) {
                    Ok(n) => Ok(DataView::IntArray(m.insert(i, int_appended(lookup(m, i), n)))),
                    Err(e) => Err(e),
                },
                None => Err(ExecErrorView::ArrayIndexInvalid(key)),
            },
            _ => Err(unsupported("not an array"@)),
        }
    }

    /// A write to the element of an associative array under `key`.
    pub open spec fn set_as_assoc(self, key: Seq<char>, value: Seq<char>) -> Result<
        DataView,
        ExecErrorView,
    > {
        match self {
            DataView::Assoc(m) => Ok(DataView::Assoc(m.put(key, value))),
            DataView::IntAssoc(m) => match int_for(value) {
                Ok(n) => Ok(DataView::IntAssoc(m.put(key, n))),
                Err(e) => Err(e),
            },
            _ => Err(unsupported("not an associative table"@)),
        }
    }

    /// An append to the element of an associative array under `key`.
    pub open spec fn append_to_assoc_elem(self, key: Seq<char>, value: Seq<char>) -> Result<
        DataView,
        ExecErrorView,
    > {
        match self {
            DataView::Assoc(m) => Ok(DataView::Assoc(m.put(key, text_appended(m.get(key), value)))),
            DataView::IntAssoc(m) => match int_for(value) {
                Ok(n) => Ok(DataView::IntAssoc(m.put(key, int_appended(m.get(key), n)))),
                Err(e) => Err(e),
            },
            _ => Err(unsupported("not an associative table"@)),
        }
    }

    /// The removal of the element that `key` addresses. Scalars and
    /// uninitialized containers have no elements to remove.
    pub open spec fn remove_elem(self, key: Seq<char>) -> Result<DataView, ExecErrorView> {
        match self {
            DataView::Array(m) => if is_wildcard(key) {
                Ok(DataView::Array(Map::empty()))
            } else {
                match index_for(end_of(m.dom()), key) {
                    Some(i) => Ok(DataView::Array(m.remove(i))),
                    None => Err(ExecErrorView::ArrayIndexInvalid(key)),
                }
            },
            DataView::IntArray(m) => if is_wildcard(key) {
                Ok(DataView::IntArray(Map::empty()))
            } else {
                match position_for(key) {
                    Some(i) => Ok(DataView::IntArray(m.remove(i))),
                    None => Err(ExecErrorView::Other("invalid index"@)),
                }
            },
            DataView::Assoc(m) => if is_wildcard(key) {
                Ok(DataView::Assoc(Ordered::empty()))
            } else {
                Ok(DataView::Assoc(m.removed(key)))
            },
            DataView::IntAssoc(m) => if is_wildcard(key) {
                Ok(DataView::IntAssoc(Ordered::empty()))
            } else {
                Ok(DataView::IntAssoc(m.removed(key)))
            },
            _ => Ok(self),
        }
    }

    /// The value after the write `op` with subscript `key` and text `value`.
    pub open spec fn apply(self, op: WriteOp, key: Seq<char>, value: Seq<char>) -> Result<
        DataView,
        ExecErrorView,
    > {
        match op {
            WriteOp::SetSingle => self.set_as_single(value),
            WriteOp::AppendSingle => self.append_as_single(value),
            WriteOp::SetAt(pos) => self.set_at(pos, value),
            WriteOp::AppendAt(pos) => self.append_at(pos, value),
            WriteOp::SetArray => self.set_as_array(key, value),
            WriteOp::AppendArray => self.append_to_array_elem(key, value),
            WriteOp::SetAssoc => self.set_as_assoc(key, value),
            WriteOp::AppendAssoc => self.append_to_assoc_elem(key, value),
            WriteOp::Remove => self.remove_elem(key),
        }
    }

    /// The scalar reading: the value of a scalar, the element `0` of a
    /// container.
    pub open spec fn get_as_single(self) -> Result<Seq<char>, ExecErrorView> {
        match self {
            DataView::Single(s) => Ok(s),
            DataView::Int(n) => Ok(numeral_of(n as int)),
            DataView::Array(m) => match lookup(m, 0) {
                Some(s) => Ok(s),
                None => Err(ExecErrorView::Other("No entry"@)),
            },
            DataView::IntArray(m) => match lookup(m, 0) {
                Some(n) => Ok(numeral_of(n as int)),
                None => Err(ExecErrorView::Other("No entry"@)),
            },
            DataView::Assoc(m) => match m.get(zero_key()) {
                Some(s) => Ok(s),
                None => Err(ExecErrorView::Other("No entry"@)),
            },
            DataView::IntAssoc(m) => match m.get(zero_key()) {
                Some(n) => Ok(numeral_of(n as int)),
                None => Err(ExecErrorView::Other("No entry"@)),
            },
            _ => Err(ExecErrorView::Other("No entry"@)),
        }
    }

    /// Whether `key` addresses an element. Position `0` of a scalar counts.
    pub open spec fn has_key(self, key: Seq<char>) -> Result<bool, ExecErrorView> {
        match self {
            DataView::Single(_) | DataView::Int(_) => Ok(key == zero_key()),
            DataView::Array(m) => if is_wildcard(key) {
                Ok(true)
            } else {
                match index_for(end_of(m.dom()), key) {
                    Some(i) => Ok(m.contains_key(i)),
                    None => Err(ExecErrorView::ArrayIndexInvalid(key)),
                }
            },
            DataView::IntArray(m) => if is_wildcard(key) {
                Ok(true)
            } else {
                match index_for(end_of(m.dom()), key) {
                    Some(i) => Ok(m.contains_key(i)),
                    None => Err(ExecErrorView::ArrayIndexInvalid(key)),
                }
            },
            DataView::Assoc(m) => Ok(is_wildcard(key) || m.contains_key(key)),
            DataView::IntAssoc(m) => Ok(is_wildcard(key) || m.contains_key(key)),
            _ => Ok(false),
        }
    }

    /// One more than the largest position of an indexed array; 0 for every
    /// other variant.
    pub open spec fn index_based_len(self) -> int {
        match self {
            DataView::Array(m) => end_of(m.dom()),
            DataView::IntArray(m) => end_of(m.dom()),
            _ => 0,
        }
    }

    /// The elements as texts, in the order of enumeration: ascending by
    /// position for an indexed array, by first arrival of the key for an
    /// associative one.
    pub open spec fn values(self) -> Seq<Seq<char>> {
        match self {
            DataView::Single(s) => seq![s],
            DataView::Int(n) => seq![numeral(n)],
            DataView::Array(m) => dense(m, 0, end_of(m.dom()), true, Seq::<char>::empty()),
            DataView::IntArray(m) => dense(
                numeral_map(m),
                0,
                end_of(m.dom()),
                true,
                Seq::<char>::empty(),
            ),
            DataView::Assoc(m) => m.values(),
            DataView::IntAssoc(m) => m.mapped(|n: isize| numeral(n)).values(),
            _ => Seq::empty(),
        }
    }

    /// The subscripts of the elements as texts, in the order of enumeration.
    pub open spec fn keys(self) -> Seq<Seq<char>> {
        match self {
            DataView::Single(_) | DataView::Int(_) => seq![zero_key()],
            DataView::Array(m) => key_numerals(m.dom()),
            DataView::IntArray(m) => key_numerals(m.dom()),
            DataView::Assoc(m) => m.keys,
            DataView::IntAssoc(m) => m.keys,
            _ => Seq::empty(),
        }
    }

    /// The elements from position `pos` on. For an indexed array a position
    /// without an element gives an empty text, or nothing where `skip` is
    /// set; the other variants count their elements in order.
    pub open spec fn vec_from(self, pos: int, skip: bool) -> Seq<Seq<char>> {
        match self {
            DataView::Array(m) => dense(m, pos, end_of(m.dom()), skip, Seq::<char>::empty()),
            DataView::IntArray(m) => dense(
                numeral_map(m),
                pos,
                end_of(m.dom()),
                skip,
                Seq::<char>::empty(),
            ),
            _ => if pos <= self.values().len() {
                self.values().skip(pos)
            } else {
                Seq::empty()
            },
        }
    }

    /// The reading of the element that `key` addresses. `@` and `*` read all
    /// elements, joined; an element that is not there reads as empty, or as
    /// `0` in an integer container.
    pub open spec fn get_elem(self, key: Seq<char>, ifs: Seq<char>) -> Result<
        Seq<char>,
        ExecErrorView,
    > {
        match self {
            DataView::Single(s) => Ok(
                if key == zero_key() || is_wildcard(key) {
                    s
                } else {
                    Seq::empty()
                },
            ),
            DataView::Int(n) => Ok(
                if key == zero_key() || is_wildcard(key) {
                    numeral(n)
                } else {
                    Seq::empty()
                },
            ),
            DataView::Array(m) => if key == seq!['@'] {
                Ok(joined(self.values(), seq![' ']))
            } else if key == seq!['*'] {
                Ok(joined(self.values(), ifs))
            } else {
                match index_for(end_of(m.dom()), key) {
                    Some(i) => Ok(
                        match lookup(m, i) {
                            Some(s) => s,
                            None => Seq::empty(),
                        },
                    ),
                    None => Err(ExecErrorView::ArrayIndexInvalid(key)),
                }
            },
            DataView::IntArray(m) => if key == seq!['@'] {
                Ok(joined(self.values(), seq![' ']))
            } else {
                match position_for(key) {
                    Some(i) => Ok(
                        match lookup(m, i) {
                            Some(n) => numeral(n),
                            None => numeral(0),
                        },
                    ),
                    None => Err(ExecErrorView::ArrayIndexInvalid(key)),
                }
            },
            DataView::Assoc(m) => if is_wildcard(key) {
                Ok(joined(self.values(), seq![' ']))
            } else {
                Ok(
                    match m.get(key) {
                        Some(s) => s,
                        None => Seq::empty(),
                    },
                )
            },
            DataView::IntAssoc(m) => if is_wildcard(key) {
                Ok(joined(self.values(), seq![' ']))
            } else {
                Ok(
                    match m.get(key) {
                        Some(n) => numeral(n),
                        None => numeral(0),
                    },
                )
            },
            _ => Ok(Seq::empty()),
        }
    }

    /// The length: the number of characters of a scalar, the number of
    /// elements of a container.
    pub open spec fn len(self) -> nat {
        match self {
            DataView::Single(s) => s.len(),
            DataView::Int(n) => numeral(n).len(),
            DataView::Array(m) => m.len(),
            DataView::IntArray(m) => m.len(),
            DataView::Assoc(m) => m.keys.len(),
            DataView::IntAssoc(m) => m.keys.len(),
            _ => 0,
        }
    }

    /// The length of the element that `key` addresses: the number of
    /// elements for `@` and `*`, else the number of characters of what the
    /// element reads as.
    pub open spec fn elem_len(self, key: Seq<char>) -> Result<nat, ExecErrorView> {
        if is_wildcard(key) && !(self is UninitArray || self is UninitAssoc) {
            Ok(self.len())
        } else {
            match self {
                DataView::Array(m) => match index_for(end_of(m.dom()), key) {
                    Some(_) => match self.get_elem(key, Seq::empty()) {
                        Ok(s) => Ok(s.len()),
                        Err(e) => Err(e),
                    },
                    None => Err(ExecErrorView::ArrayIndexInvalid(key)),
                },
                DataView::UninitArray | DataView::UninitAssoc => Ok(0),
                _ => match self.get_elem(key, Seq::empty()) {
                    Ok(s) => Ok(s.len()),
                    Err(e) => Err(e),
                },
            }
        }
    }

    /// The variant that holds texts in place of integers.
    pub open spec fn str_type(self) -> DataView {
        match self {
            DataView::Int(n) => DataView::Single(numeral_of(n as int)),
            DataView::IntArray(m) => DataView::Array(numeral_map(m)),
            DataView::IntAssoc(m) => DataView::Assoc(m.mapped(|n: isize| numeral(n))),
            _ => self,
        }
    }
}

impl Data {
    /// Every container inside is well formed.
    pub open spec fn wf(&self) -> bool {
        match self {
            Data::Array(a) => a.wf(),
            Data::IntArray(a) => a.wf(),
            Data::Assoc(a) => a.wf(),
            Data::IntAssoc(a) => a.wf(),
            _ => true,
        }
    }

    /// The value as plain values.
    pub open spec fn view(&self) -> DataView {
        match self {
            Data::UninitArray => DataView::UninitArray,
            Data::UninitAssoc => DataView::UninitAssoc,
            Data::Single(s) => DataView::Single(s@),
            Data::Int(n) => DataView::Int(*n),
            Data::Array(a) => DataView::Array(a@),
            Data::IntArray(a) => DataView::IntArray(a@),
            Data::Assoc(a) => DataView::Assoc(a@),
            Data::IntAssoc(a) => DataView::IntAssoc(a@),
        }
    }

    /// Whether the value is an indexed array.
    pub fn is_array(&self) -> (r: bool)
        ensures
            r == self@.is_array(),
    {
        match self {
            Data::UninitArray | Data::Array(_) | Data::IntArray(_) => true,
            _ => false,
        }
    }

    /// Whether the value is an associative array.
    pub fn is_assoc(&self) -> (r: bool)
        ensures
            r == self@.is_assoc(),
    {
        match self {
            Data::UninitAssoc | Data::Assoc(_) | Data::IntAssoc(_) => true,
            _ => false,
        }
    }

    /// Whether the value is a scalar.
    pub fn is_single(&self) -> (r: bool)
        ensures
            r == self@.is_single(),
    {
        match self {
            Data::Single(_) | Data::Int(_) => true,
            _ => false,
        }
    }

    /// Whether the value is an integer scalar.
    pub fn is_single_num(&self) -> (r: bool)
        ensures
            r == self@.is_single_num(),
    {
        match self {
            Data::Int(_) => true,
            _ => false,
        }
    }

    /// Whether the value is more than a declaration.
    pub fn is_initialized(&self) -> (r: bool)
        ensures
            r == self@.is_initialized(),
    {
        match self {
            Data::UninitArray | Data::UninitAssoc => false,
            _ => true,
        }
    }

    /// Empties the value and keeps its variant.
    pub fn clear(&mut self)
        ensures
            final(self).wf(),
            final(self)@ == old(self)@.cleared(),
    {
        match self {
            Data::Single(s) => {
                *s = String::new();
            },
            Data::Int(n) => {
                *n = 0;
            },
            Data::Array(a) => a.clear(),
            Data::IntArray(a) => a.clear(),
            Data::Assoc(a) => a.clear(),
            Data::IntAssoc(a) => a.clear(),
            _ => {},
        }
    }

    /// A scalar write.
    pub fn set_as_single(&mut self, value: &str) -> (r: Result<(), ExecError>)
        requires
            old(self).wf(),
        ensures
            final(self).wf(),
            match r {
                Ok(()) => old(self)@.set_as_single(value@) == Ok::<DataView, ExecErrorView>(
                    final(self)@,
                ),
                Err(e) => old(self)@.set_as_single(value@) == Err::<DataView, ExecErrorView>(e@)
                    && final(self)@ == old(self)@,
            },
    {
        match self {
            Data::Single(s) => {
                *s = value.to_owned();
                Ok(())
            },
            Data::Int(n) => {
                let v = to_int(value)?;
                *n = v;
                Ok(())
            },
            Data::Array(a) => a.set_as_single(value),
            Data::IntArray(a) => a.set_as_single(value),
            Data::Assoc(a) => a.set_as_single(value),
            Data::IntAssoc(a) => a.set_as_single(value),
            _ => Err(ExecError::Other("Undefined call set_as_single".to_owned())),
        }
    }

    /// A scalar append.
    pub fn append_as_single(&mut self, value: &str) -> (r: Result<(), ExecError>)
        requires
            old(self).wf(),
        ensures
            final(self).wf(),
            match r {
                Ok(()) => old(self)@.append_as_single(value@) == Ok::<DataView, ExecErrorView>(
                    final(self)@,
                ),
                Err(e) => old(self)@.append_as_single(value@) == Err::<DataView, ExecErrorView>(e@)
                    && final(self)@ == old(self)@,
            },
    {
        match self {
            Data::Single(s) => {
                s.append(value);
                Ok(())
            },
            Data::Int(n) => {
                let v = to_int(value)?;
                *n = n.wrapping_add(v);
                Ok(())
            },
            Data::Array(a) => a.append_as_single(value),
            Data::IntArray(a) => a.append_as_single(value),
            Data::Assoc(a) => a.append_as_single(value),
            Data::IntAssoc(a) => a.append_as_single(value),
            _ => Err(ExecError::Other("Undefined call append_as_single".to_owned())),
        }
    }

    /// A write to the element of an indexed array that `key` addresses.
    pub fn set_as_array(&mut self, key: &str, value: &str) -> (r: Result<(), ExecError>)
        requires
            old(self).wf(),
        ensures
            final(self).wf(),
            match r {
                Ok(()) => old(self)@.set_as_array(key@, value@) == Ok::<DataView, ExecErrorView>(
                    final(self)@,
                ),
                Err(e) => old(self)@.set_as_array(key@, value@) == Err::<DataView, ExecErrorView>(e@)
                    && final(self)@ == old(self)@,
            },
    {
        match self {
            Data::Array(a) => {
                proof {
                    a.lemma_end();
                }
                a.set_as_array(key, value)
            },
            Data::IntArray(a) => {
                proof {
                    a.lemma_end();
                }
                a.set_as_array(key, value)
            },
            _ => Err(ExecError::Other("not an array".to_owned())),
        }
    }

    /// An append to the element of an indexed array that `key` addresses.
    pub fn append_to_array_elem(&mut self, key: &str, value: &str) -> (r: Result<(), ExecError>)
        requires
            old(self).wf(),
        ensures
            final(self).wf(),
            match r {
                Ok(()) => old(self)@.append_to_array_elem(key@, value@) == Ok::<
                    DataView,
                    ExecErrorView,
                >(final(self)@),
                Err(e) => old(self)@.append_to_array_elem(key@, value@) == Err::<
                    DataView,
                    ExecErrorView,
                >(e@) && final(self)@ == old(self)@,
            },
    {
        match self {
            Data::Array(a) => {
                proof {
                    a.lemma_end();
                }
                a.append_to_array_elem(key, value)
            },
            Data::IntArray(a) => {
                proof {
                    a.lemma_end();
                }
                a.append_to_array_elem(key, value)
            },
            _ => Err(ExecError::Other("not an array".to_owned())),
        }
    }

    /// Writes to the element at the offset `pos`.
    pub fn set_at(&mut self, pos: isize, value: &str) -> (r: Result<(), ExecError>)
        requires
            old(self).wf(),
        ensures
            final(self).wf(),
            match r {
                Ok(()) => old(self)@.set_at(pos, value@) == Ok::<DataView, ExecErrorView>(final(self)@),
                Err(e) => old(self)@.set_at(pos, value@) == Err::<DataView, ExecErrorView>(e@)
                    && final(self)@ == old(self)@,
            },
    {
        match self {
            Data::Array(a) => {
                proof {
                    a.lemma_end();
                }
                a.set_at(pos, value)
            },
            Data::IntArray(a) => {
                proof {
                    a.lemma_end();
                }
                a.set_at(pos, value)
            },
            _ => {
                let key = int_to_string(pos as i128);
                self.set_as_assoc(key.as_str(), value)
            },
        }
    }

    /// Appends to the element at the offset `pos`.
    pub fn append_at(&mut self, pos: isize, value: &str) -> (r: Result<(), ExecError>)
        requires
            old(self).wf(),
        ensures
            final(self).wf(),
            match r {
                Ok(()) => old(self)@.append_at(pos, value@) == Ok::<DataView, ExecErrorView>(
                    final(self)@,
                ),
                Err(e) => old(self)@.append_at(pos, value@) == Err::<DataView, ExecErrorView>(e@)
                    && final(self)@ == old(self)@,
            },
    {
        match self {
            Data::Array(a) => {
                proof {
                    a.lemma_end();
                }
                a.append_at(pos, value)
            },
            Data::IntArray(a) => {
                proof {
                    a.lemma_end();
                }
                a.append_at(pos, value)
            },
            _ => {
                let key = int_to_string(pos as i128);
                self.append_to_assoc_elem(key.as_str(), value)
            },
        }
    }

    /// A write to the element of an associative array under `key`.
    pub fn set_as_assoc(&mut self, key: &str, value: &str) -> (r: Result<(), ExecError>)
        requires
            old(self).wf(),
        ensures
            final(self).wf(),
            match r {
                Ok(()) => old(self)@.set_as_assoc(key@, value@) == Ok::<DataView, ExecErrorView>(
                    final(self)@,
                ),
                Err(e) => old(self)@.set_as_assoc(key@, value@) == Err::<DataView, ExecErrorView>(e@)
                    && final(self)@ == old(self)@,
            },
    {
        match self {
            Data::Assoc(a) => a.set_as_assoc(key, value),
            Data::IntAssoc(a) => a.set_as_assoc(key, value),
            _ => Err(ExecError::Other("not an associative table".to_owned())),
        }
    }

    /// An append to the element of an associative array under `key`.
    pub fn append_to_assoc_elem(&mut self, key: &str, value: &str) -> (r: Result<(), ExecError>)
        requires
            old(self).wf(),
        ensures
            final(self).wf(),
            match r {
                Ok(()) => old(self)@.append_to_assoc_elem(key@, value@) == Ok::<
                    DataView,
                    ExecErrorView,
                >(final(self)@),
                Err(e) => old(self)@.append_to_assoc_elem(key@, value@) == Err::<
                    DataView,
                    ExecErrorView,
                >(e@) && final(self)@ == old(self)@,
            },
    {
        match self {
            Data::Assoc(a) => a.append_to_assoc_elem(key, value),
            Data::IntAssoc(a) => a.append_to_assoc_elem(key, value),
            _ => Err(ExecError::Other("not an associative table".to_owned())),
        }
    }

    /// Removes the element that `key` addresses.
    pub fn remove_elem(&mut self, key: &str) -> (r: Result<(), ExecError>)
        requires
            old(self).wf(),
        ensures
            final(self).wf(),
            match r {
                Ok(()) => old(self)@.remove_elem(key@) == Ok::<DataView, ExecErrorView>(final(self)@),
                Err(e) => old(self)@.remove_elem(key@) == Err::<DataView, ExecErrorView>(e@) && final(self)@ == old(self)@,
            },
    {
        match self {
            Data::Array(a) => {
                proof {
                    a.lemma_end();
                }
                a.remove_elem(key)
            },
            Data::IntArray(a) => a.remove_elem(key),
            Data::Assoc(a) => a.remove_elem(key),
            Data::IntAssoc(a) => a.remove_elem(key),
            _ => Ok(()),
        }
    }
}


impl Data {
    /// Applies the write `op` with subscript `key` and text `value`.
    pub fn apply(&mut self, op: WriteOp, key: &str, value: &str) -> (r: Result<(), ExecError>)
        requires
            old(self).wf(),
        ensures
            final(self).wf(),
            match r {
                Ok(()) => old(self)@.apply(op, key@, value@) == Ok::<DataView, ExecErrorView>(
                    final(self)@,
                ),
                Err(e) => old(self)@.apply(op, key@, value@) == Err::<DataView, ExecErrorView>(e@)
                    && final(self)@ == old(self)@,
            },
    {
        match op {
            WriteOp::SetSingle => self.set_as_single(value),
            WriteOp::AppendSingle => self.append_as_single(value),
            WriteOp::SetAt(pos) => self.set_at(pos, value),
            WriteOp::AppendAt(pos) => self.append_at(pos, value),
            WriteOp::SetArray => self.set_as_array(key, value),
            WriteOp::AppendArray => self.append_to_array_elem(key, value),
            WriteOp::SetAssoc => self.set_as_assoc(key, value),
            WriteOp::AppendAssoc => self.append_to_assoc_elem(key, value),
            WriteOp::Remove => self.remove_elem(key),
        }
    }

    /// The scalar reading.
    pub fn get_as_single(&self) -> (r: Result<String, ExecError>)
        requires
            self.wf(),
        ensures
            match r {
                Ok(s) => self@.get_as_single() == Ok::<Seq<char>, ExecErrorView>(s@),
                Err(e) => self@.get_as_single() == Err::<Seq<char>, ExecErrorView>(e@),
            },
    {
        match self {
            Data::Single(s) => Ok(s.clone()),
            Data::Int(n) => Ok(int_to_string(*n as i128)),
            Data::Array(a) => a.get_as_single(),
            Data::IntArray(a) => a.get_as_single(),
            Data::Assoc(a) => a.get_as_single(),
            Data::IntAssoc(a) => a.get_as_single(),
            _ => Err(ExecError::Other("No entry".to_owned())),
        }
    }

    /// The reading of the element that `key` addresses.
    pub fn get_elem(&self, key: &str, ifs: &str) -> (r: Result<String, ExecError>)
        requires
            self.wf(),
        ensures
            match r {
                Ok(s) => self@.get_elem(key@, ifs@) == Ok::<Seq<char>, ExecErrorView>(s@),
                Err(e) => self@.get_elem(key@, ifs@) == Err::<Seq<char>, ExecErrorView>(e@),
            },
    {
        match self {
            Data::Single(s) => {
                if str_eq(key, zero_text()) || crate::shell::database::data::array::wildcard(key) {
                    Ok(s.clone())
                } else {
                    Ok(String::new())
                }
            },
            Data::Int(n) => {
                if str_eq(key, zero_text()) || crate::shell::database::data::array::wildcard(key) {
                    Ok(int_to_string(*n as i128))
                } else {
                    Ok(String::new())
                }
            },
            Data::Array(a) => {
                proof {
                    a.lemma_end();
                }
                a.get_as_array(key, ifs)
            },
            Data::IntArray(a) => {
                proof {
                    a.lemma_end();
                }
                a.get_as_array(key, ifs)
            },
            Data::Assoc(a) => a.get_as_assoc(key),
            Data::IntAssoc(a) => a.get_as_assoc(key),
            _ => Ok(String::new()),
        }
    }

    /// Whether `key` addresses an element.
    pub fn has_key(&self, key: &str) -> (r: Result<bool, ExecError>)
        requires
            self.wf(),
        ensures
            match r {
                Ok(b) => self@.has_key(key@) == Ok::<bool, ExecErrorView>(b),
                Err(e) => self@.has_key(key@) == Err::<bool, ExecErrorView>(e@),
            },
    {
        match self {
            Data::Single(_) | Data::Int(_) => Ok(str_eq(key, zero_text())),
            Data::Array(a) => {
                proof {
                    a.lemma_end();
                }
                a.has_key(key)
            },
            Data::IntArray(a) => {
                proof {
                    a.lemma_end();
                }
                a.has_key(key)
            },
            Data::Assoc(a) => a.has_key(key),
            Data::IntAssoc(a) => a.has_key(key),
            _ => Ok(false),
        }
    }

    /// One more than the largest position of an indexed array; 0 for every
    /// other variant.
    pub fn index_based_len(&self) -> (n: usize)
        requires
            self.wf(),
        ensures
            n == self@.index_based_len(),
    {
        match self {
            Data::Array(a) => a.index_based_len(),
            Data::IntArray(a) => a.index_based_len(),
            _ => 0,
        }
    }

    /// The length: the number of characters of a scalar, the number of
    /// elements of a container.
    pub fn len(&self) -> (n: usize)
        requires
            self.wf(),
        ensures
            n == self@.len(),
    {
        match self {
            Data::Single(s) => s.as_str().unicode_len(),
            Data::Int(v) => {
                let s = int_to_string(*v as i128);
                s.as_str().unicode_len()
            },
            Data::Array(a) => a.len(),
            Data::IntArray(a) => a.len(),
            Data::Assoc(a) => a.len(),
            Data::IntAssoc(a) => a.len(),
            _ => 0,
        }
    }

    /// The length of the element that `key` addresses.
    pub fn elem_len(&self, key: &str) -> (r: Result<usize, ExecError>)
        requires
            self.wf(),
        ensures
            match r {
                Ok(n) => self@.elem_len(key@) == Ok::<nat, ExecErrorView>(n as nat),
                Err(e) => self@.elem_len(key@) == Err::<nat, ExecErrorView>(e@),
            },
    {
        match self {
            Data::Array(a) => {
                proof {
                    a.lemma_end();
                    reveal_strlit("@");
                    reveal_strlit("*");
                }
                a.elem_len(key)
            },
            Data::IntArray(a) => a.elem_len(key),
            Data::Assoc(a) => a.elem_len(key),
            Data::IntAssoc(a) => a.elem_len(key),
            Data::UninitArray | Data::UninitAssoc => Ok(0),
            _ => {
                if crate::shell::database::data::array::wildcard(key) {
                    return Ok(self.len());
                }
                proof {
                    reveal_strlit("");
                    assert(""@ =~= Seq::<char>::empty());
                }
                let s = self.get_elem(key, "")?;
                Ok(s.as_str().unicode_len())
            },
        }
    }

    /// The elements as texts, in the order of enumeration.
    pub fn values(&self) -> (r: Vec<String>)
        requires
            self.wf(),
        ensures
            texts(r@) == self@.values(),
    {
        match self {
            Data::Single(s) => {
                let mut out: Vec<String> = Vec::new();
                out.push(s.clone());
                assert(texts(out@) =~= seq![s@]);
                out
            },
            Data::Int(n) => {
                let mut out: Vec<String> = Vec::new();
                out.push(int_to_string(*n as i128));
                assert(texts(out@) =~= seq![numeral(*n)]);
                out
            },
            Data::Array(a) => a.values(),
            Data::IntArray(a) => a.values(),
            Data::Assoc(a) => a.values(),
            Data::IntAssoc(a) => a.values(),
            _ => {
                let out: Vec<String> = Vec::new();
                assert(texts(out@) =~= Seq::<Seq<char>>::empty());
                out
            },
        }
    }

    /// The subscripts of the elements as texts, in the order of enumeration.
    pub fn get_all_indexes_as_array(&self) -> (r: Vec<String>)
        requires
            self.wf(),
        ensures
            texts(r@) == self@.keys(),
    {
        match self {
            Data::Single(_) | Data::Int(_) => {
                let mut out: Vec<String> = Vec::new();
                out.push(zero_text().to_owned());
                assert(texts(out@) =~= seq![zero_key()]);
                out
            },
            Data::Array(a) => a.get_all_indexes_as_array(),
            Data::IntArray(a) => a.get_all_indexes_as_array(),
            Data::Assoc(a) => a.keys(),
            Data::IntAssoc(a) => a.keys(),
            _ => {
                let out: Vec<String> = Vec::new();
                assert(texts(out@) =~= Seq::<Seq<char>>::empty());
                out
            },
        }
    }

    /// The elements from position `pos` on.
    pub fn get_vec_from(&self, pos: usize, skip_non: bool) -> (r: Vec<String>)
        requires
            self.wf(),
        ensures
            texts(r@) == self@.vec_from(pos as int, skip_non),
    {
        match self {
            Data::Array(a) => {
                proof {
                    a.lemma_end();
                }
                a.get_vec_from(pos, skip_non)
            },
            Data::IntArray(a) => {
                proof {
                    a.lemma_end();
                }
                a.get_vec_from(pos, skip_non)
            },
            _ => {
                let mut all = self.values();
                if pos <= all.len() {
                    let rest = all.split_off(pos);
                    assert(texts(rest@) =~= self@.values().skip(pos as int));
                    rest
                } else {
                    let out: Vec<String> = Vec::new();
                    assert(texts(out@) =~= Seq::<Seq<char>>::empty());
                    out
                }
            },
        }
    }

    /// All elements from position 0 on.
    pub fn get_all_as_array(&self, skip_non: bool) -> (r: Vec<String>)
        requires
            self.wf(),
        ensures
            texts(r@) == self@.vec_from(0, skip_non),
    {
        self.get_vec_from(0, skip_non)
    }

    /// Turns a variant that holds integers into the one that holds their
    /// numerals; the others stay as they are.
    pub fn to_str_type(&mut self)
        requires
            old(self).wf(),
        ensures
            final(self).wf(),
            final(self)@ == old(self)@.str_type(),
    {
        match self {
            Data::Int(n) => {
                let s = int_to_string(*n as i128);
                *self = Data::Single(s);
            },
            Data::IntArray(a) => {
                let t = a.get_str_type();
                *self = Data::Array(t);
            },
            Data::IntAssoc(a) => {
                let t = a.get_str_type();
                *self = Data::Assoc(t);
            },
            _ => {},
        }
    }
}

/// A table of values as a map from names to what they hold.
pub open spec fn layer_view(t: NameMap<Data>) -> Map<Seq<char>, DataView> {
    Map::new(|k: Seq<char>| t@.contains_key(k), |k: Seq<char>| t@[k]@)
}

/// Every value of the table is well formed.
pub open spec fn layer_wf(t: NameMap<Data>) -> bool {
    &&& t.wf()
    &&& forall|i: int| 0 <= i < t.values.len() ==> (#[trigger] t.values[i]).wf()
}

/// A new value under `name` shows in the view as the same write.
pub proof fn lemma_layer_insert(before: NameMap<Data>, after: NameMap<Data>, name: Seq<char>, d: Data)
    requires
        after@ == before@.insert(name, d),
    ensures
        layer_view(after) == layer_view(before).insert(name, d@),
{
    assert(layer_view(after) =~= layer_view(before).insert(name, d@));
}

/// A name taken out shows in the view as the same removal.
pub proof fn lemma_layer_remove(before: NameMap<Data>, after: NameMap<Data>, name: Seq<char>)
    requires
        after@ == before@.remove(name),
    ensures
        layer_view(after) == layer_view(before).remove(name),
{
    assert(layer_view(after) =~= layer_view(before).remove(name));
}

/// A value changed in place shows in the view as a write under its name.
pub proof fn lemma_layer_update(before: NameMap<Data>, after: NameMap<Data>, i: int)
    requires
        layer_wf(before),
        0 <= i < before.names.len(),
        after.names == before.names,
        after.values@ == before.values@.update(i, after.values[i]),
        after.values[i].wf(),
    ensures
        layer_wf(after),
        after@ == before@.insert(before.names[i]@, after.values[i]),
        layer_view(after) == layer_view(before).insert(before.names[i]@, after.values[i]@),
{
    NameMap::lemma_update(&before, &after, i);
    lemma_layer_insert(before, after, before.names[i]@, after.values[i]);
    assert forall|j: int| 0 <= j < after.values.len() implies (#[trigger] after.values[j]).wf() by {
        if j != i {
            assert(after.values[j] == before.values[j]);
        }
    }
}

/// What the table holds under a name is well formed, and is what the view
/// shows.
pub proof fn lemma_layer_get(t: NameMap<Data>, name: Seq<char>)
    requires
        layer_wf(t),
        t@.contains_key(name),
    ensures
        t@[name].wf(),
        layer_view(t).contains_key(name),
        layer_view(t)[name] == t@[name]@,
{
    t.lemma_has(name);
}

/// The write `op` applied to what `name` holds in a table.
pub open spec fn apply_in(
    t: Map<Seq<char>, DataView>,
    name: Seq<char>,
    op: WriteOp,
    key: Seq<char>,
    value: Seq<char>,
) -> (Map<Seq<char>, DataView>, Result<(), ExecErrorView>) {
    match t[name].apply(op, key, value) {
        Ok(d) => (t.insert(name, d), Ok(())),
        Err(e) => (t, Err(e)),
    }
}

/// Puts `d` under `name` in the table.
pub fn table_put(t: &mut NameMap<Data>, name: &str, d: Data)
    requires
        layer_wf(*old(t)),
        d.wf(),
    ensures
        layer_wf(*final(t)),
        layer_view(*final(t)) == layer_view(*old(t)).insert(name@, d@),
{
    let ghost t0 = *t;
    t.insert(name, d);
    proof {
        let t1 = *t;
        lemma_layer_insert(t0, t1, name@, d);
        assert forall|i: int| 0 <= i < t1.values.len() implies (#[trigger] t1.values[i]).wf() by {
            t1.lemma_slot(i);
            if t1.names[i]@ != name@ {
                assert(t0@.contains_key(t1.names[i]@));
                t0.lemma_has(t1.names[i]@);
            }
        }
    }
}

/// What the table holds under `name`.
pub fn table_get<'a>(t: &'a NameMap<Data>, name: &str) -> (r: Option<&'a Data>)
    requires
        layer_wf(*t),
    ensures
        match r {
            Some(d) => layer_view(*t).contains_key(name@) && layer_view(*t)[name@] == d@ && d.wf(),
            None => !layer_view(*t).contains_key(name@),
        },
{
    proof {
        if t@.contains_key(name@) {
            lemma_layer_get(*t, name@);
        }
    }
    t.get(name)
}

/// Applies the write `op` to what the table holds under `name`.
pub fn table_apply(t: &mut NameMap<Data>, name: &str, op: WriteOp, key: &str, value: &str) -> (r:
    Result<(), ExecError>)
    requires
        layer_wf(*old(t)),
        layer_view(*old(t)).contains_key(name@),
    ensures
        layer_wf(*final(t)),
        layer_view(*final(t)) == apply_in(layer_view(*old(t)), name@, op, key@, value@).0,
        crate::error::exec::outcome(r) == apply_in(layer_view(*old(t)), name@, op, key@, value@).1,
{
    let ghost t0 = *t;
    let i = t.position(name).unwrap();
    proof {
        lemma_layer_get(t0, name@);
    }
    let r = t.values[i].apply(op, key, value);
    proof {
        let t1 = *t;
        lemma_layer_update(t0, t1, i as int);
        if r is Err {
            assert(layer_view(t0).insert(name@, t1.values[i as int]@) =~= layer_view(t0));
        }
    }
    r
}

/// Takes `name` out of the table.
pub fn table_remove(t: &mut NameMap<Data>, name: &str)
    requires
        layer_wf(*old(t)),
    ensures
        layer_wf(*final(t)),
        layer_view(*final(t)) == layer_view(*old(t)).remove(name@),
{
    let ghost t0 = *t;
    t.remove(name);
    proof {
        let t1 = *t;
        lemma_layer_remove(t0, t1, name@);
        assert forall|i: int| 0 <= i < t1.values.len() implies (#[trigger] t1.values[i]).wf() by {
            t1.lemma_slot(i);
            assert(t0@.contains_key(t1.names[i]@));
            t0.lemma_has(t1.names[i]@);
        }
    }
}

/// Empties what the table holds under `name`, if anything.
pub fn table_clear(t: &mut NameMap<Data>, name: &str)
    requires
        layer_wf(*old(t)),
    ensures
        layer_wf(*final(t)),
        layer_view(*final(t)) == if layer_view(*old(t)).contains_key(name@) {
            layer_view(*old(t)).insert(name@, layer_view(*old(t))[name@].cleared())
        } else {
            layer_view(*old(t))
        },
{
    let ghost t0 = *t;
    if let Some(i) = t.position(name) {
        proof {
            lemma_layer_get(t0, name@);
        }
        t.values[i].clear();
        proof {
            lemma_layer_update(t0, *t, i as int);
        }
    }
}

/// Turns what the table holds under `name`, if anything, into the variant
/// that holds texts.
pub fn table_to_str_type(t: &mut NameMap<Data>, name: &str)
    requires
        layer_wf(*old(t)),
    ensures
        layer_wf(*final(t)),
        layer_view(*final(t)) == if layer_view(*old(t)).contains_key(name@) {
            layer_view(*old(t)).insert(name@, layer_view(*old(t))[name@].str_type())
        } else {
            layer_view(*old(t))
        },
{
    let ghost t0 = *t;
    if let Some(i) = t.position(name) {
        proof {
            lemma_layer_get(t0, name@);
        }
        t.values[i].to_str_type();
        proof {
            lemma_layer_update(t0, *t, i as int);
        }
    }
}

/// The text with a backslash before each `$`.
pub open spec fn escaped(s: Seq<char>) -> Seq<char>
    decreases s.len(),
{
    if s.len() == 0 {
        s
    } else if s.last() == '$' {
        escaped(s.drop_last()) + seq!['\\', '$']
    } else {
        escaped(s.drop_last()).push(s.last())
    }
}

/// How an element shows in a listing: `[key]="value"`.
pub open spec fn entry_text(key: Seq<char>, value: Seq<char>) -> Seq<char> {
    seq!['['] + key + seq![']', '=', '"'] + escaped(value) + seq!['"']
}

/// The elements under their subscripts, in order, as they show in a
/// listing.
pub open spec fn entry_texts(keys: Seq<Seq<char>>, values: Seq<Seq<char>>) -> Seq<Seq<char>> {
    Seq::new(
        if keys.len() <= values.len() {
            keys.len()
        } else {
            values.len()
        },
        |i: int| entry_text(keys[i], values[i]),
    )
}

impl DataView {
    /// How the value shows after `name=`: a scalar as it reads, a container
    /// as the list of its elements in parentheses.
    pub open spec fn print_body(self) -> Seq<char> {
        match self {
            DataView::Single(s) => s,
            DataView::Int(n) => numeral(n),
            DataView::UninitArray | DataView::UninitAssoc => Seq::empty(),
            _ => seq!['('] + joined(entry_texts(self.keys(), self.values()), seq![' ']) + seq![')'],
        }
    }

    /// The line that shows `name` with what it holds: the name alone for a
    /// container without a value.
    pub open spec fn print_with_name(self, name: Seq<char>) -> Seq<char> {
        if self.is_initialized() {
            name + seq!['='] + self.print_body()
        } else {
            name
        }
    }
}

impl DataView {
    /// The option of `declare` that makes the variant.
    pub open spec fn declare_option(self) -> Seq<char> {
        match self {
            DataView::Single(_) => "--"@,
            DataView::Int(_) => "-i"@,
            DataView::UninitArray | DataView::Array(_) => "-a"@,
            DataView::IntArray(_) => "-ai"@,
            DataView::UninitAssoc | DataView::Assoc(_) => "-A"@,
            DataView::IntAssoc(_) => "-Ai"@,
        }
    }

    /// The declaration that makes `name` what it is: `declare`, the option
    /// of the variant, the name, and the value, a scalar one in quotes.
    pub open spec fn declare_text(self, name: Seq<char>) -> Seq<char> {
        "declare "@ + self.declare_option() + seq![' '] + name + if !self.is_initialized() {
            Seq::empty()
        } else if self.is_single() {
            seq!['=', '"'] + escaped(self.print_body()) + seq!['"']
        } else {
            seq!['='] + self.print_body()
        }
    }
}

/// The text with a backslash before each `$`.
pub fn escape_dollars(s: &str) -> (r: String)
    ensures
        r@ == escaped(s@),
{
    let v = crate::utils::text::chars_of(s);
    let mut out = String::new();
    let mut i: usize = 0;
    while i < v.len()
        invariant
            i <= v.len(),
            v@ == s@,
            out@ == escaped(s@.take(i as int)),
        decreases v.len() - i,
    {
        proof {
            assert(s@.take(i + 1).drop_last() =~= s@.take(i as int));
            assert(s@.take(i + 1).last() == v@[i as int]);
        }
        let ghost before = out@;
        if v[i] == '$' {
            out.push('\\');
            out.push('$');
            assert(out@ =~= before + seq!['\\', '$']);
        } else {
            out.push(v[i]);
        }
        i += 1;
    }
    assert(s@.take(v.len() as int) =~= s@);
    out
}

impl Data {
    /// How the value shows after `name=`.
    pub fn print_body(&self) -> (r: String)
        requires
            self.wf(),
        ensures
            r@ == self@.print_body(),
    {
        match self {
            Data::Single(s) => s.clone(),
            Data::Int(n) => int_to_string(*n as i128),
            Data::UninitArray | Data::UninitAssoc => String::new(),
            _ => {
                let keys = self.get_all_indexes_as_array();
                let values = self.values();
                assert(texts(keys@).len() == keys.len());
                assert(texts(values@).len() == values.len());
                let n = if keys.len() <= values.len() {
                    keys.len()
                } else {
                    values.len()
                };
                let mut entries: Vec<String> = Vec::new();
                let mut i: usize = 0;
                while i < n
                    invariant
                        i <= n,
                        n <= keys.len(),
                        n <= values.len(),
                        entries.len() == i,
                        forall|j: int|
                            0 <= j < i ==> entries[j]@ == entry_text(keys[j]@, values[j]@),
                    decreases n - i,
                {
                    let mut e = String::new();
                    e.push('[');
                    e.append(keys[i].as_str());
                    e.push(']');
                    e.push('=');
                    e.push('"');
                    let ghost head = e@;
                    assert(head =~= seq!['['] + keys[i as int]@ + seq![']', '=', '"']);
                    let body = escape_dollars(values[i].as_str());
                    e.append(body.as_str());
                    e.push('"');
                    assert(e@ =~= entry_text(keys[i as int]@, values[i as int]@));
                    entries.push(e);
                    i += 1;
                }
                proof {
                    reveal_strlit(" ");
                    assert(" "@ =~= seq![' ']);
                    assert(texts(entries@) =~= entry_texts(self@.keys(), self@.values()));
                }
                let inner = join(&entries, " ");
                let mut out = String::new();
                out.push('(');
                out.append(inner.as_str());
                out.push(')');
                assert(out@ =~= seq!['('] + inner@ + seq![')']);
                out
            },
        }
    }

    /// The declaration that makes `name` what it is.
    pub fn declare_text(&self, name: &str) -> (r: String)
        requires
            self.wf(),
        ensures
            r@ == self@.declare_text(name@),
    {
        let option = match self {
            Data::Single(_) => "--",
            Data::Int(_) => "-i",
            Data::UninitArray | Data::Array(_) => "-a",
            Data::IntArray(_) => "-ai",
            Data::UninitAssoc | Data::Assoc(_) => "-A",
            Data::IntAssoc(_) => "-Ai",
        };
        let mut out = glue("declare ", option);
        out.push(' ');
        out.append(name);
        let ghost head = out@;
        assert(head =~= "declare "@ + self@.declare_option() + seq![' '] + name@);
        if !self.is_initialized() {
            assert(head + Seq::<char>::empty() =~= head);
        } else if self.is_single() {
            let body = self.print_body();
            let quoted = escape_dollars(body.as_str());
            out.push('=');
            out.push('"');
            out.append(quoted.as_str());
            out.push('"');
            assert(out@ =~= head + (seq!['=', '"'] + quoted@ + seq!['"']));
        } else {
            let body = self.print_body();
            out.push('=');
            out.append(body.as_str());
            assert(out@ =~= head + (seq!['='] + body@));
        }
        out
    }

    /// The line that shows `name` with what it holds.
    pub fn print_with_name(&self, name: &str) -> (r: String)
        requires
            self.wf(),
        ensures
            r@ == self@.print_with_name(name@),
    {
        if self.is_initialized() {
            let mut out = name.to_owned();
            out.push('=');
            let body = self.print_body();
            out.append(body.as_str());
            assert(out@ =~= name@ + seq!['='] + body@);
            out
        } else {
            name.to_owned()
        }
    }
}

} // verus!
