//! Associative arrays of strings: a map from key texts to texts, enumerated
//! in the order in which the keys first came in.

use vstd::prelude::*;
use crate::error::exec::{outcome, ExecError, ExecErrorView};
use crate::shell::database::data::{
    apply_in,
    layer_view,
    layer_wf,
    lookup,
    table_apply,
    table_get,
    table_put,
    Data,
    DataView,
    WriteOp,
};
use crate::shell::database::data::assoc_int::IntAssocData;
use crate::shell::database::data::array::{is_wildcard, wildcard};
use crate::utils::name_map::{NameMap, Ordered};
use crate::utils::text::{glue, join, joined, texts};

verus! {

/// The key at which a scalar write to a container lands.
pub open spec fn zero_key() -> Seq<char> {
    seq!['0']
}

/// The value after an append: the concatenation for strings.
pub open spec fn text_appended(prev: Option<Seq<char>>, s: Seq<char>) -> Seq<char> {
    match prev {
        Some(v) => v + s,
        None => s,
    }
}

/// The associative array without elements: of integers where `int_flag`
/// holds, else of texts.
pub open spec fn fresh_assoc(int_flag: bool) -> DataView {
    if int_flag {
        DataView::IntAssoc(Ordered::empty())
    } else {
        DataView::Assoc(Ordered::empty())
    }
}

/// The associative array that a write under a key installs before it
/// writes, if any: an empty one where the name is new or declared without a
/// value, and one that keeps a scalar's value under the key `0`. A scalar
/// whose value the new array does not take fails and stays. A container
/// that has a value stays as it is.
pub open spec fn promoted_assoc(d: Option<DataView>, int_flag: bool) -> Result<
    Option<DataView>,
    ExecErrorView,
> {
    match d {
        None => Ok(Some(fresh_assoc(int_flag))),
        Some(d) => if !d.is_initialized() {
            Ok(Some(fresh_assoc(int_flag)))
        } else if d.is_single() {
            match d.get_as_single() {
                Ok(data) => match fresh_assoc(int_flag).set_as_assoc(zero_key(), data) {
                    Ok(p) => Ok(Some(p)),
                    Err(e) => Err(e),
                },
                Err(e) => Err(e),
            }
        } else {
            Ok(None)
        },
    }
}

/// The write `op` under `key` of `name` in a table, after the promotion to
/// an associative array that the write calls for.
pub open spec fn assoc_write_in(
    t: Map<Seq<char>, DataView>,
    name: Seq<char>,
    op: WriteOp,
    key: Seq<char>,
    val: Seq<char>,
    int_flag: bool,
) -> (Map<Seq<char>, DataView>, Result<(), ExecErrorView>) {
    match promoted_assoc(lookup(t, name), int_flag) {
        Err(e) => (t, Err(e)),
        Ok(p) => {
            let t1 = match p {
                Some(d) => t.insert(name, d),
                None => t,
            };
            apply_in(t1, name, op, key, val)
        },
    }
}

/// The write of `val` under `key` of `name` in a table.
pub open spec fn set_assoc_elem_in(
    t: Map<Seq<char>, DataView>,
    name: Seq<char>,
    key: Seq<char>,
    val: Seq<char>,
    int_flag: bool,
) -> (Map<Seq<char>, DataView>, Result<(), ExecErrorView>) {
    assoc_write_in(t, name, WriteOp::SetAssoc, key, val, int_flag)
}

/// The append of `val` to the element under `key` of `name` in a table.
pub open spec fn append_assoc_elem_in(
    t: Map<Seq<char>, DataView>,
    name: Seq<char>,
    key: Seq<char>,
    val: Seq<char>,
    int_flag: bool,
) -> (Map<Seq<char>, DataView>, Result<(), ExecErrorView>) {
    assoc_write_in(t, name, WriteOp::AppendAssoc, key, val, int_flag)
}

/// The text `0`.
pub fn zero_text() -> (r: &'static str)
    ensures
        r@ == zero_key(),
{
    proof {
        reveal_strlit("0");
        assert("0"@ =~= seq!['0']);
    }
    "0"
}

/// An associative array of strings.
#[derive(Debug)]
pub struct AssocData {
    pub body: NameMap<String>,
}

impl AssocData {
    /// No key occurs twice.
    pub open spec fn wf(&self) -> bool {
        self.body.wf()
    }

    /// The array as a map from key texts to texts, with the order of its keys.
    pub open spec fn view(&self) -> Ordered<Seq<char>> {
        self.body.ordered().mapped(|s: String| s@)
    }

    /// The elements in the order of their keys.
    pub proof fn lemma_values(&self)
        requires
            self.wf(),
        ensures
            texts(self.body.values@) == self@.values(),
            self@.keys.no_duplicates(),
            forall|k: Seq<char>| self@.keys.contains(k) <==> self@.contains_key(k),
    {
        self.body.lemma_order();
        assert forall|i: int| 0 <= i < self.body.values.len() implies texts(self.body.values@)[i]
            == self@.values()[i] by {
            self.body.lemma_slot(i);
        }
        assert(texts(self.body.values@) =~= self@.values());
    }

    /// An associative array without elements.
    pub fn new() -> (r: Self)
        ensures
            r.wf(),
            r@ == Ordered::<Seq<char>>::empty(),
    {
        let r = AssocData { body: NameMap::new() };
        assert(r@.map =~= Map::<Seq<char>, Seq<char>>::empty());
        r
    }

    /// Removes every element.
    pub fn clear(&mut self)
        ensures
            final(self).wf(),
            final(self)@ == Ordered::<Seq<char>>::empty(),
    {
        self.body = NameMap::new();
        assert(self@.map =~= Map::<Seq<char>, Seq<char>>::empty());
    }

    /// An associative array always has a value.
    pub fn is_initialized(&self) -> (r: bool)
        ensures
            r,
    {
        true
    }

    /// An associative array is one.
    pub fn is_assoc(&self) -> (r: bool)
        ensures
            r,
    {
        true
    }

    /// The number of elements.
    pub fn len(&self) -> (n: usize)
        requires
            self.wf(),
        ensures
            n == self@.keys.len(),
    {
        self.body.len()
    }

    /// Puts `value` under `key`.
    pub fn put(&mut self, key: &str, value: String)
        requires
            old(self).wf(),
        ensures
            final(self).wf(),
            final(self)@ == old(self)@.put(key@, value@),
    {
        let ghost before = *self;
        self.body.insert(key, value);
        assert(self@.map =~= before@.put(key@, value@).map);
    }

    /// The text under `key`, empty where there is no element.
    pub fn text_at(&self, key: &str) -> (r: String)
        requires
            self.wf(),
        ensures
            r@ == match self@.get(key@) {
                Some(s) => s,
                None => Seq::<char>::empty(),
            },
    {
        match self.body.get(key) {
            Some(s) => s.clone(),
            None => String::new(),
        }
    }

    /// A scalar write lands under the key `0`.
    pub fn set_as_single(&mut self, value: &str) -> (r: Result<(), ExecError>)
        requires
            old(self).wf(),
        ensures
            final(self).wf(),
            r is Ok,
            final(self)@ == old(self)@.put(zero_key(), value@),
    {
        self.put(zero_text(), value.to_owned());
        Ok(())
    }

    /// A scalar append extends the element under the key `0`.
    pub fn append_as_single(&mut self, value: &str) -> (r: Result<(), ExecError>)
        requires
            old(self).wf(),
        ensures
            final(self).wf(),
            r is Ok,
            final(self)@ == old(self)@.put(
                zero_key(),
                text_appended(old(self)@.get(zero_key()), value@),
            ),
    {
        self.append_to_assoc_elem(zero_text(), value)
    }

    /// Writes `value` under `key`.
    pub fn set_as_assoc(&mut self, key: &str, value: &str) -> (r: Result<(), ExecError>)
        requires
            old(self).wf(),
        ensures
            final(self).wf(),
            r is Ok,
            final(self)@ == old(self)@.put(key@, value@),
    {
        self.put(key, value.to_owned());
        Ok(())
    }

    /// Extends the element under `key` by `value`.
    pub fn append_to_assoc_elem(&mut self, key: &str, value: &str) -> (r: Result<(), ExecError>)
        requires
            old(self).wf(),
        ensures
            final(self).wf(),
            r is Ok,
            final(self)@ == old(self)@.put(key@, text_appended(old(self)@.get(key@), value@)),
    {
        let prev = self.text_at(key);
        assert(Seq::<char>::empty() + value@ =~= value@);
        self.put(key, glue(prev.as_str(), value));
        Ok(())
    }

    /// The elements in the order of their keys.
    pub fn values(&self) -> (r: Vec<String>)
        requires
            self.wf(),
        ensures
            texts(r@) == self@.values(),
    {
        let mut out: Vec<String> = Vec::new();
        let mut i: usize = 0;
        while i < self.body.values.len()
            invariant
                i <= self.body.values.len(),
                out.len() == i,
                forall|j: int| 0 <= j < i ==> out[j]@ == self.body.values[j]@,
            decreases self.body.values.len() - i,
        {
            out.push(self.body.values[i].clone());
            i += 1;
        }
        proof {
            self.lemma_values();
            assert(texts(out@) =~= texts(self.body.values@));
        }
        out
    }

    /// The keys in the order in which they first came in: each key of the
    /// map once.
    pub fn keys(&self) -> (r: Vec<String>)
        requires
            self.wf(),
        ensures
            texts(r@) == self@.keys,
            forall|k: Seq<char>| texts(r@).contains(k) <==> self@.contains_key(k),
            texts(r@).no_duplicates(),
    {
        let mut out: Vec<String> = Vec::new();
        let mut i: usize = 0;
        while i < self.body.names.len()
            invariant
                i <= self.body.names.len(),
                out.len() == i,
                forall|j: int| 0 <= j < i ==> out[j]@ == self.body.names[j]@,
            decreases self.body.names.len() - i,
        {
            out.push(self.body.names[i].clone());
            i += 1;
        }
        proof {
            self.lemma_values();
            assert(texts(out@) =~= self@.keys);
        }
        out
    }

    /// The element under `key`, empty if unset; all elements joined by a
    /// space for `@` and `*`.
    pub fn get_as_assoc(&self, key: &str) -> (r: Result<String, ExecError>)
        requires
            self.wf(),
        ensures
            r matches Ok(s) && s@ == if is_wildcard(key@) {
                joined(self@.values(), seq![' '])
            } else {
                match self@.get(key@) {
                    Some(s) => s,
                    None => Seq::<char>::empty(),
                }
            },
    {
        proof {
            reveal_strlit(" ");
            assert(" "@ =~= seq![' ']);
        }
        if wildcard(key) {
            return Ok(join(&self.values(), " "));
        }
        Ok(self.text_at(key))
    }

    /// The element under the key `0`.
    pub fn get_as_single(&self) -> (r: Result<String, ExecError>)
        requires
            self.wf(),
        ensures
            match r {
                Ok(s) => self@.get(zero_key()) == Some(s@),
                Err(e) => self@.get(zero_key()) is None && e@ == ExecErrorView::Other("No entry"@),
            },
    {
        match self.body.get(zero_text()) {
            Some(s) => Ok(s.clone()),
            None => Err(ExecError::Other("No entry".to_owned())),
        }
    }

    /// Whether there is an element under `key`; `@` and `*` always count.
    pub fn has_key(&self, key: &str) -> (r: Result<bool, ExecError>)
        requires
            self.wf(),
        ensures
            r matches Ok(b) && b == (is_wildcard(key@) || self@.contains_key(key@)),
    {
        if wildcard(key) {
            return Ok(true);
        }
        Ok(self.body.contains_key(key))
    }

    /// The number of elements for `@` and `*`, else the number of characters
    /// of the element under `key`.
    pub fn elem_len(&self, key: &str) -> (r: Result<usize, ExecError>)
        requires
            self.wf(),
        ensures
            r matches Ok(n) && n == if is_wildcard(key@) {
                self@.keys.len()
            } else {
                match self@.get(key@) {
                    Some(s) => s.len(),
                    None => 0,
                }
            },
    {
        if wildcard(key) {
            return Ok(self.len());
        }
        let s = self.text_at(key);
        Ok(s.as_str().unicode_len())
    }

    /// Removes the element under `key`; `@` and `*` remove all.
    pub fn remove_elem(&mut self, key: &str) -> (r: Result<(), ExecError>)
        requires
            old(self).wf(),
        ensures
            final(self).wf(),
            r is Ok,
            final(self)@ == if is_wildcard(key@) {
                Ordered::<Seq<char>>::empty()
            } else {
                old(self)@.removed(key@)
            },
    {
        if wildcard(key) {
            self.clear();
            return Ok(());
        }
        let ghost before = *self;
        self.body.remove(key);
        assert(self@.map =~= before@.removed(key@).map);
        Ok(())
    }
}

/// An associative array without elements: of integers where `int_flag`
/// holds, else of texts.
pub fn fresh(int_flag: bool) -> (r: Data)
    ensures
        r.wf(),
        r@ == fresh_assoc(int_flag),
{
    if int_flag {
        Data::IntAssoc(IntAssocData::new())
    } else {
        Data::Assoc(AssocData::new())
    }
}

/// Makes `name` of the table an associative array, where it is none yet:
/// an empty one for a name that is new or declared without a value, one
/// that keeps the value under the key `0` for a scalar.
fn promote(db_layer: &mut NameMap<Data>, name: &str, int_flag: bool) -> (r: Result<(), ExecError>)
    requires
        layer_wf(*old(db_layer)),
    ensures
        layer_wf(*final(db_layer)),
        match promoted_assoc(lookup(layer_view(*old(db_layer)), name@), int_flag) {
            Err(e) => outcome(r) == Err::<(), ExecErrorView>(e) && layer_view(*final(db_layer))
                == layer_view(*old(db_layer)),
            Ok(p) => r is Ok && layer_view(*final(db_layer)).contains_key(name@) && layer_view(
                *final(db_layer),
            ) == match p {
                Some(d) => layer_view(*old(db_layer)).insert(name@, d),
                None => layer_view(*old(db_layer)),
            },
        },
{
    let mut promoted: Option<Data> = None;
    match table_get(db_layer, name) {
        None => {
            promoted = Some(fresh(int_flag));
        },
        Some(d) => {
            if !d.is_initialized() {
                promoted = Some(fresh(int_flag));
            } else if d.is_single() {
                let data = d.get_as_single()?;
                let mut a = fresh(int_flag);
                a.set_as_assoc(zero_text(), data.as_str())?;
                promoted = Some(a);
            }
        },
    }
    if let Some(a) = promoted {
        table_put(db_layer, name, a);
    }
    Ok(())
}

impl AssocData {
    /// Writes `val` under `key` of the associative array `name` of the
    /// table. A name that is new, declared without a value or a scalar
    /// becomes an associative array first, of integers where `int_flag`
    /// holds.
    pub fn set_elem(db_layer: &mut NameMap<Data>, name: &str, key: &str, val: &str, int_flag: bool) -> (r:
        Result<(), ExecError>)
        requires
            layer_wf(*old(db_layer)),
        ensures
            layer_wf(*final(db_layer)),
            layer_view(*final(db_layer)) == set_assoc_elem_in(
                layer_view(*old(db_layer)),
                name@,
                key@,
                val@,
                int_flag,
            ).0,
            outcome(r) == set_assoc_elem_in(layer_view(*old(db_layer)), name@, key@, val@, int_flag).1,
    {
        promote(db_layer, name, int_flag)?;
        table_apply(db_layer, name, WriteOp::SetAssoc, key, val)
    }

    /// Appends `val` to the element under `key` of the associative array
    /// `name` of the table, after the same promotion as for a write.
    pub fn append_elem(db_layer: &mut NameMap<Data>, name: &str, key: &str, val: &str, int_flag: bool) -> (r:
        Result<(), ExecError>)
        requires
            layer_wf(*old(db_layer)),
        ensures
            layer_wf(*final(db_layer)),
            layer_view(*final(db_layer)) == append_assoc_elem_in(
                layer_view(*old(db_layer)),
                name@,
                key@,
                val@,
                int_flag,
            ).0,
            outcome(r) == append_assoc_elem_in(layer_view(*old(db_layer)), name@, key@, val@, int_flag).1,
    {
        promote(db_layer, name, int_flag)?;
        table_apply(db_layer, name, WriteOp::AppendAssoc, key, val)
    }
}

} // verus!
