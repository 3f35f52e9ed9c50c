//! The writes that the store takes.

use vstd::prelude::*;
use crate::error::exec::{outcome, ExecError, ExecErrorView};
use crate::shell::database::data::array::{append_elem_in, set_elem_in, ArrayData};
use crate::shell::database::data::array_int::{int_for, set_int_elem_in, to_int, IntArrayData};
use crate::shell::database::data::assoc::{
    append_assoc_elem_in,
    set_assoc_elem_in,
    zero_key,
    zero_text,
    AssocData,
};
use crate::shell::database::data::assoc_int::IntAssocData;
use crate::shell::database::data::{layer_view, layer_wf, table_get, Data, DataView, WriteOp};
use crate::shell::database::{DataBase, DbView};
use crate::utils::name_map::Ordered;
use crate::utils::number::{int_to_string, numeral_of, parse_isize, parse_spec};
use crate::utils::text::{contains_char, lowercase_of, str_eq, texts};

verus! {

/// Each text in lowercase.
pub open spec fn all_lowercase(vs: Seq<Seq<char>>) -> Seq<Seq<char>> {
    Seq::new(vs.len(), |i: int| lowercase_of(vs[i]))
}

/// The array that holds `vs[i]` at position `i`.
pub open spec fn array_of(vs: Seq<Seq<char>>) -> Map<usize, Seq<char>> {
    Map::new(|k: usize| k < vs.len(), |k: usize| vs[k as int])
}

/// One layer changed, and nothing else: the store stays well formed, and
/// its view shows the new table in that layer.
pub proof fn lemma_layer_changed(before: &DataBase, after: &DataBase, l: int)
    requires
        before.wf(),
        0 <= l < before.params.len(),
        after.params@ == before.params@.update(l, after.params[l]),
        layer_wf(after.params[l]),
        after.flags == before.flags,
        after.param_options == before.param_options,
        after.position_parameters == before.position_parameters,
        after.functions == before.functions,
        after.exit_status == before.exit_status,
        after.last_arg == before.last_arg,
        after.hash_counter == before.hash_counter,
        after.environ == before.environ,
    ensures
        after.wf(),
        after@ == before@.with_layer(l, layer_view(after.params[l])),
{
    assert forall|i: int| 0 <= i < after.params.len() implies layer_wf(#[trigger] after.params[i]) by {
        if i != l {
            assert(after.params[i] == before.params[i]);
        }
    }
    assert(after@.params =~= before@.with_layer(l, layer_view(after.params[l])).params);
}

impl DbView {
    /// Whether a write to `name` goes to the environment too.
    pub open spec fn exports(self, name: Seq<char>) -> bool {
        !self.flags.contains('r') && (self.flags.contains('a') || self.has_flag(name, 'x'))
    }

    /// The text as it is stored: in lowercase where the name has the flag
    /// `l`.
    pub open spec fn cased(self, name: Seq<char>, val: Seq<char>) -> Seq<char> {
        if self.has_flag(name, 'l') {
            lowercase_of(val)
        } else {
            val
        }
    }

    /// The level of positional parameters that a write to `BASH_ARGV0`
    /// reaches.
    pub open spec fn argv0_level(self, layer: Option<usize>) -> int {
        match layer {
            Some(l) => l as int,
            None => self.layers() - 1,
        }
    }

    /// With positional parameter 0 of level `n` replaced by `val`, where the
    /// level has one.
    pub open spec fn with_positional_zero(self, n: int, val: Seq<char>) -> DbView {
        if 0 <= n < self.positional.len() && self.positional[n].len() > 0 {
            DbView { positional: self.positional.update(n, self.positional[n].update(0, val)), ..self }
        } else {
            self
        }
    }

    /// A write to `BASH_ARGV0` also writes positional parameter 0.
    pub open spec fn with_argv0(self, name: Seq<char>, val: Seq<char>, layer: Option<usize>) -> DbView {
        if name == "BASH_ARGV0"@ {
            self.with_positional_zero(self.argv0_level(layer), val)
        } else {
            self
        }
    }

    /// An append to `BASH_ARGV0` also extends positional parameter 0.
    pub open spec fn with_argv0_appended(
        self,
        name: Seq<char>,
        val: Seq<char>,
        layer: Option<usize>,
    ) -> DbView {
        let n = self.argv0_level(layer);
        if name == "BASH_ARGV0"@ && 0 <= n < self.positional.len() && self.positional[n].len() > 0 {
            self.with_positional_zero(n, self.positional[n][0] + val)
        } else {
            self
        }
    }

    /// With an empty string under `name` in layer `l`, unless the layer
    /// holds the name already.
    pub open spec fn with_default(self, l: int, name: Seq<char>) -> DbView {
        if self.params[l].contains_key(name) {
            self
        } else {
            self.with_data(l, name, DataView::Single(Seq::empty()))
        }
    }

    /// The scalar write of `v` to what `name` holds in layer `l`: a
    /// container takes it at `0` and stays a container, one that was only
    /// declared becomes an empty one first.
    pub open spec fn write_scalar(self, l: int, name: Seq<char>, v: Seq<char>) -> (
        DbView,
        Result<(), ExecErrorView>,
    ) {
        let d = self.params[l][name];
        if d.is_array() {
            let s = if d.is_initialized() {
                self
            } else {
                self.with_data(l, name, DataView::Array(Map::empty()))
            };
            s.apply_at(l, name, WriteOp::SetArray, zero_key(), v)
        } else if d.is_assoc() {
            let s = if d.is_initialized() {
                self
            } else {
                self.with_data(l, name, DataView::Assoc(Ordered::empty()))
            };
            s.apply_at(l, name, WriteOp::SetAssoc, zero_key(), v)
        } else {
            self.apply_at(l, name, WriteOp::SetSingle, zero_key(), v)
        }
    }

    /// The scalar append of `v` to what `name` holds in layer `l`.
    pub open spec fn append_scalar(self, l: int, name: Seq<char>, v: Seq<char>) -> (
        DbView,
        Result<(), ExecErrorView>,
    ) {
        if self.params[l][name].is_array() {
            self.apply_at(l, name, WriteOp::AppendArray, zero_key(), v)
        } else {
            self.apply_at(l, name, WriteOp::AppendSingle, zero_key(), v)
        }
    }

    /// The scalar write `name=val`.
    pub open spec fn set_param(self, name: Seq<char>, val: Seq<char>, layer: Option<usize>) -> (
        DbView,
        Result<(), ExecErrorView>,
    ) {
        match self.checks(name, Some(seq![val])) {
            Err(e) => (self.checked(name), Err(e)),
            Ok(()) => {
                let s1 = self.with_argv0(name, val, layer);
                let s2 = if s1.exports(name) {
                    s1.with_env(name, Seq::empty())
                } else {
                    s1
                };
                let v = s2.cased(name, val);
                let l = s2.target_layer(name, layer);
                let s3 = if s2.environ.contains_key(name) {
                    s2.with_env(name, v)
                } else {
                    s2
                };
                s3.with_default(l, name).write_scalar(l, name, v)
            },
        }
    }

    /// The scalar append `name+=val`.
    pub open spec fn append_param(self, name: Seq<char>, val: Seq<char>, layer: Option<usize>) -> (
        DbView,
        Result<(), ExecErrorView>,
    ) {
        match self.checks(name, Some(seq![val])) {
            Err(e) => (self.checked(name), Err(e)),
            Ok(()) => {
                let s1 = self.with_argv0_appended(name, val, layer);
                let s2 = if s1.exports(name) && !s1.environ.contains_key(name) {
                    s1.with_env(name, Seq::empty())
                } else {
                    s1
                };
                let v = s2.cased(name, val);
                let l = s2.target_layer(name, layer);
                let s3 = if s2.environ.contains_key(name) {
                    s2.with_env(name, s2.environ[name] + v)
                } else {
                    s2
                };
                s3.with_default(l, name).append_scalar(l, name, v)
            },
        }
    }

    /// The write `name[pos]=val` into an indexed array.
    pub open spec fn set_array_elem(
        self,
        name: Seq<char>,
        val: Seq<char>,
        pos: isize,
        layer: Option<usize>,
    ) -> (DbView, Result<(), ExecErrorView>) {
        match self.checks(name, Some(seq![val])) {
            Err(e) => (self.checked(name), Err(e)),
            Ok(()) => {
                let l = self.target_layer(name, layer);
                let v = self.cased(name, val);
                let (t, r) = if self.has_flag(name, 'i') {
                    set_int_elem_in(self.params[l], name, pos, v)
                } else {
                    set_elem_in(self.params[l], name, pos, v)
                };
                (self.with_layer(l, t), r)
            },
        }
    }

    /// The append `name[pos]+=val` into an indexed array.
    pub open spec fn append_to_array_elem(
        self,
        name: Seq<char>,
        val: Seq<char>,
        pos: isize,
        layer: Option<usize>,
    ) -> (DbView, Result<(), ExecErrorView>) {
        match self.checks(name, Some(seq![val])) {
            Err(e) => (self.checked(name), Err(e)),
            Ok(()) => {
                let l = self.target_layer(name, layer);
                let v = self.cased(name, val);
                let (t, r) = append_elem_in(self.params[l], name, pos, v);
                (self.with_layer(l, t), r)
            },
        }
    }

    /// The write `name[key]=val` into an associative array. A name that is
    /// new or was only declared becomes an empty associative array first, of
    /// integers where the name has the flag `i`; a scalar becomes one that
    /// keeps its value under the key `0`.
    pub open spec fn set_assoc_elem(
        self,
        name: Seq<char>,
        key: Seq<char>,
        val: Seq<char>,
        layer: Option<usize>,
    ) -> (DbView, Result<(), ExecErrorView>) {
        match self.checks(name, Some(seq![val])) {
            Err(e) => (self.checked(name), Err(e)),
            Ok(()) => {
                let l = self.target_layer(name, layer);
                let v = self.cased(name, val);
                let (t, r) = set_assoc_elem_in(self.params[l], name, key, v, self.has_flag(name, 'i'));
                (self.with_layer(l, t), r)
            },
        }
    }

    /// The append `name[key]+=val` into an associative array, after the
    /// same promotion as for the write.
    pub open spec fn append_to_assoc_elem(
        self,
        name: Seq<char>,
        key: Seq<char>,
        val: Seq<char>,
        layer: Option<usize>,
    ) -> (DbView, Result<(), ExecErrorView>) {
        match self.checks(name, Some(seq![val])) {
            Err(e) => (self.checked(name), Err(e)),
            Ok(()) => {
                let l = self.target_layer(name, layer);
                let v = self.cased(name, val);
                let (t, r) = append_assoc_elem_in(self.params[l], name, key, v, self.has_flag(name, 'i'));
                (self.with_layer(l, t), r)
            },
        }
    }

    /// The declaration of `name` as an indexed array: without a value, or
    /// with `v[i]` at position `i`.
    pub open spec fn set_array(self, name: Seq<char>, v: Option<Seq<Seq<char>>>, layer: Option<usize>) -> (
        DbView,
        Result<(), ExecErrorView>,
    ) {
        match self.checks(name, v) {
            Err(e) => (self.checked(name), Err(e)),
            Ok(()) => {
                let l = self.target_layer(name, layer);
                (
                    self.with_data(
                        l,
                        name,
                        match v {
                            None => DataView::UninitArray,
                            Some(vs) => DataView::Array(
                                array_of(
                                    if self.has_flag(name, 'l') {
                                        all_lowercase(vs)
                                    } else {
                                        vs
                                    },
                                ),
                            ),
                        },
                    ),
                    Ok(()),
                )
            },
        }
    }

    /// The writes `name[i]=vs[i]` from `i` on into layer `l`, stopping at the
    /// first failure.
    pub open spec fn set_elems_from(self, name: Seq<char>, vs: Seq<Seq<char>>, i: int, l: usize) -> (
        DbView,
        Result<(), ExecErrorView>,
    )
        decreases vs.len() - i,
    {
        if i < 0 || i >= vs.len() {
            (self, Ok(()))
        } else {
            let (s, r) = self.set_array_elem(name, vs[i], i as isize, Some(l));
            match r {
                Ok(()) => s.set_elems_from(name, vs, i + 1, l),
                Err(e) => (s, Err(e)),
            }
        }
    }

    /// The declaration of `name` as an indexed array of integers, filled
    /// with the values of `v` where there are any.
    pub open spec fn set_int_array(
        self,
        name: Seq<char>,
        v: Option<Seq<Seq<char>>>,
        layer: Option<usize>,
    ) -> (DbView, Result<(), ExecErrorView>) {
        match self.checks(name, v) {
            Err(e) => (self.checked(name), Err(e)),
            Ok(()) => {
                let l = self.target_layer(name, layer);
                let s = self.add_flag(l, name, 'i').with_data(l, name, DataView::IntArray(Map::empty()));
                match v {
                    None => (s, Ok(())),
                    Some(vs) => s.set_elems_from(name, vs, 0, l as usize),
                }
            },
        }
    }

    /// The declaration of `name` as an empty associative array of integers.
    pub open spec fn set_int_assoc(self, name: Seq<char>, layer: Option<usize>) -> (
        DbView,
        Result<(), ExecErrorView>,
    ) {
        match self.checks(name, None) {
            Err(e) => (self.checked(name), Err(e)),
            Ok(()) => {
                let l = self.target_layer(name, layer);
                (
                    self.add_flag(l, name, 'i').with_data(
                        l,
                        name,
                        DataView::IntAssoc(Ordered::empty()),
                    ),
                    Ok(()),
                )
            },
        }
    }

    /// The declaration of `name` as an associative array: empty where
    /// `set_array` holds, else without a value.
    pub open spec fn set_assoc(self, name: Seq<char>, layer: Option<usize>, set_array: bool) -> (
        DbView,
        Result<(), ExecErrorView>,
    ) {
        match self.checks(name, None) {
            Err(e) => (self.checked(name), Err(e)),
            Ok(()) => {
                let l = self.target_layer(name, layer);
                (
                    self.with_data(
                        l,
                        name,
                        if set_array {
                            DataView::Assoc(Ordered::empty())
                        } else {
                            DataView::UninitAssoc
                        },
                    ),
                    Ok(()),
                )
            },
        }
    }

    /// The declaration of `name` as an integer with the value that `value`
    /// denotes, 0 where it is empty. The flag `i` is set before the value
    /// is read.
    pub open spec fn init_as_num(self, name: Seq<char>, value: Seq<char>, layer: Option<usize>) -> (
        DbView,
        Result<(), ExecErrorView>,
    ) {
        match self.checks(name, Some(seq![value])) {
            Err(e) => (self.checked(name), Err(e)),
            Ok(()) => {
                let l = self.target_layer(name, layer);
                let s = self.add_flag(l, name, 'i');
                if value.len() == 0 {
                    (s.with_data(l, name, DataView::Int(0)), Ok(()))
                } else {
                    match int_for(value) {
                        Ok(n) => (s.with_data(l, name, DataView::Int(n)), Ok(())),
                        Err(e) => (s, Err(e)),
                    }
                }
            },
        }
    }

    /// The write `name[index]=val`, by the kind of `name` and the shape of
    /// `index`: an empty index writes the scalar; an indexed array takes a
    /// numeral and ignores anything else; an associative array takes any
    /// text; a name that is neither becomes an indexed array for a numeral
    /// and is written as an associative array otherwise.
    pub open spec fn set_param2(
        self,
        name: Seq<char>,
        index: Seq<char>,
        val: Seq<char>,
        layer: Option<usize>,
    ) -> (DbView, Result<(), ExecErrorView>) {
        let pos = parse_spec(index, isize::MIN as int, isize::MAX as int);
        if index.len() == 0 {
            self.set_param(name, val, layer)
        } else if self.is_array(name) {
            match pos {
                Ok(n) => self.set_array_elem(name, val, n as isize, layer),
                Err(_) => (self, Ok(())),
            }
        } else if self.is_assoc(name) {
            self.set_assoc_elem(name, index, val, layer)
        } else {
            match pos {
                Ok(n) => self.set_array_elem(name, val, n as isize, layer),
                Err(_) => self.set_assoc_elem(name, index, val, layer),
            }
        }
    }

    /// The append `name[index]+=val`, by the kind of `name` and the shape of
    /// `index`, as for the write.
    pub open spec fn append_param2(
        self,
        name: Seq<char>,
        index: Seq<char>,
        val: Seq<char>,
        layer: Option<usize>,
    ) -> (DbView, Result<(), ExecErrorView>) {
        let pos = parse_spec(index, isize::MIN as int, isize::MAX as int);
        if index.len() == 0 {
            self.append_param(name, val, layer)
        } else if self.is_array(name) {
            match pos {
                Ok(n) => self.append_to_array_elem(name, val, n as isize, layer),
                Err(_) => (self, Ok(())),
            }
        } else if self.is_assoc(name) {
            self.append_to_assoc_elem(name, index, val, layer)
        } else {
            match pos {
                Ok(n) => self.append_to_array_elem(name, val, n as isize, layer),
                Err(_) => self.append_to_assoc_elem(name, index, val, layer),
            }
        }
    }
}

/// A vector that holds a copy of `s` and nothing else.
pub fn one_text(s: &str) -> (r: Vec<String>)
    ensures
        texts(r@) == seq![s@],
{
    let mut v: Vec<String> = Vec::new();
    v.push(s.to_owned());
    assert(texts(v@) =~= seq![s@]);
    v
}

/// Each string of `v` in lowercase.
pub fn lowercase_all(v: &Vec<String>) -> (r: Vec<String>)
    ensures
        texts(r@) == all_lowercase(texts(v@)),
{
    let mut out: Vec<String> = Vec::new();
    let mut i: usize = 0;
    while i < v.len()
        invariant
            i <= v.len(),
            out.len() == i,
            forall|j: int| 0 <= j < i ==> out[j]@ == lowercase_of(v[j]@),
        decreases v.len() - i,
    {
        out.push(v[i].as_str().to_lowercase());
        i += 1;
    }
    assert(texts(out@) =~= all_lowercase(texts(v@)));
    out
}

impl DataBase {
    /// Whether a write to `name` goes to the environment too.
    pub fn exports(&self, name: &str) -> (r: bool)
        requires
            self.wf(),
        ensures
            r == self@.exports(name@),
    {
        !contains_char(self.flags.as_str(), 'r') && (contains_char(self.flags.as_str(), 'a')
            || self.has_flag(name, 'x'))
    }

    /// The text as it is stored: in lowercase where the name has the flag
    /// `l`.
    pub fn cased(&self, name: &str, val: &str) -> (r: String)
        requires
            self.wf(),
        ensures
            r@ == self@.cased(name@, val@),
    {
        if self.has_flag(name, 'l') {
            val.to_lowercase()
        } else {
            val.to_owned()
        }
    }

    /// Replaces positional parameter 0 of level `n` by `val`, where the
    /// level has one.
    pub fn set_positional_zero(&mut self, n: usize, val: String)
        requires
            old(self).wf(),
        ensures
            final(self).wf(),
            final(self).params.len() == old(self).params.len(),
            final(self)@ == old(self)@.with_positional_zero(n as int, val@),
    {
        let ghost before = *self;
        if n < self.position_parameters.len() && self.position_parameters[n].len() > 0 {
            self.position_parameters[n][0] = val;
            proof {
                assert forall|i: int| 0 <= i < self@.positional.len() implies self@.positional[i]
                    == before@.with_positional_zero(n as int, val@).positional[i] by {
                    if i == n {
                        assert(texts(self.position_parameters[i]@) =~= texts(
                            before.position_parameters[i]@,
                        ).update(0, val@));
                    } else {
                        assert(self.position_parameters[i] == before.position_parameters[i]);
                    }
                }
                assert(self@.positional =~= before@.with_positional_zero(n as int, val@).positional);
            }
        }
    }

    /// A write to `BASH_ARGV0` also writes positional parameter 0.
    fn set_argv0(&mut self, name: &str, val: &str, layer: Option<usize>)
        requires
            old(self).wf(),
        ensures
            final(self).wf(),
            final(self).params.len() == old(self).params.len(),
            final(self)@ == old(self)@.with_argv0(name@, val@, layer),
    {
        if str_eq(name, "BASH_ARGV0") {
            let n = match layer {
                Some(l) => l,
                None => self.get_layer_num() - 1,
            };
            self.set_positional_zero(n, val.to_owned());
        }
    }

    /// An append to `BASH_ARGV0` also extends positional parameter 0.
    fn append_argv0(&mut self, name: &str, val: &str, layer: Option<usize>)
        requires
            old(self).wf(),
        ensures
            final(self).wf(),
            final(self).params.len() == old(self).params.len(),
            final(self)@ == old(self)@.with_argv0_appended(name@, val@, layer),
    {
        if str_eq(name, "BASH_ARGV0") {
            let n = match layer {
                Some(l) => l,
                None => self.get_layer_num() - 1,
            };
            if n < self.position_parameters.len() && self.position_parameters[n].len() > 0 {
                let mut s = self.position_parameters[n][0].clone();
                s.append(val);
                assert(texts(self.position_parameters[n as int]@)[0]
                    == self.position_parameters[n as int][0]@);
                self.set_positional_zero(n, s);
            }
        }
    }

    /// Puts an empty string under `name` in layer `l`, unless the layer
    /// holds the name already.
    fn ensure_default(&mut self, l: usize, name: &str)
        requires
            old(self).wf(),
            l < old(self).params.len(),
        ensures
            final(self).wf(),
            final(self).params.len() == old(self).params.len(),
            final(self)@ == old(self)@.with_default(l as int, name@),
            final(self)@.params[l as int].contains_key(name@),
    {
        proof {
            assert(layer_wf(self.params[l as int]));
        }
        if table_get(&self.params[l], name).is_none() {
            self.put_data(l, name, Data::Single(String::new()));
        }
    }

    /// The scalar write of `v` to what `name` holds in layer `l`.
    fn write_scalar(&mut self, l: usize, name: &str, v: &str) -> (r: Result<(), ExecError>)
        requires
            old(self).wf(),
            l < old(self).params.len(),
            old(self)@.params[l as int].contains_key(name@),
        ensures
            final(self).wf(),
            final(self).params.len() == old(self).params.len(),
            final(self)@ == old(self)@.write_scalar(l as int, name@, v@).0,
            outcome(r) == old(self)@.write_scalar(l as int, name@, v@).1,
    {
        proof {
            assert(layer_wf(self.params[l as int]));
        }
        let d = table_get(&self.params[l], name).unwrap();
        let is_array = d.is_array();
        let is_assoc = d.is_assoc();
        let initialized = d.is_initialized();
        if is_array {
            if !initialized {
                self.put_data(l, name, Data::Array(ArrayData::new()));
            }
            return self.apply_at(l, name, WriteOp::SetArray, zero_text(), v);
        }
        if is_assoc {
            if !initialized {
                self.put_data(l, name, Data::Assoc(AssocData::new()));
            }
            return self.apply_at(l, name, WriteOp::SetAssoc, zero_text(), v);
        }
        self.apply_at(l, name, WriteOp::SetSingle, zero_text(), v)
    }

    /// The scalar append of `v` to what `name` holds in layer `l`.
    fn append_scalar(&mut self, l: usize, name: &str, v: &str) -> (r: Result<(), ExecError>)
        requires
            old(self).wf(),
            l < old(self).params.len(),
            old(self)@.params[l as int].contains_key(name@),
        ensures
            final(self).wf(),
            final(self).params.len() == old(self).params.len(),
            final(self)@ == old(self)@.append_scalar(l as int, name@, v@).0,
            outcome(r) == old(self)@.append_scalar(l as int, name@, v@).1,
    {
        proof {
            assert(layer_wf(self.params[l as int]));
        }
        let is_array = table_get(&self.params[l], name).unwrap().is_array();
        if is_array {
            return self.apply_at(l, name, WriteOp::AppendArray, zero_text(), v);
        }
        self.apply_at(l, name, WriteOp::AppendSingle, zero_text(), v)
    }

    /// The scalar write `name=val`: checked, put in lowercase where the name
    /// has the flag `l`, mirrored to the environment where the name is
    /// exported, and stored in `layer`, or in the innermost layer that holds
    /// the name, or globally. A container takes the value at `0`.
    pub fn set_param(&mut self, name: &str, val: &str, layer: Option<usize>) -> (r: Result<
        (),
        ExecError,
    >)
        requires
            old(self).wf(),
            layer matches Some(l) ==> l < old(self).params.len(),
        ensures
            final(self).wf(),
            final(self).params.len() == old(self).params.len(),
            final(self)@ == old(self)@.set_param(name@, val@, layer).0,
            outcome(r) == old(self)@.set_param(name@, val@, layer).1,
    {
        let vals = one_text(val);
        self.checks(name, Some(&vals))?;
        self.set_argv0(name, val, layer);
        if self.exports(name) {
            proof {
                reveal_strlit("");
                assert(""@ =~= Seq::<char>::empty());
            }
            self.env_set(name, "");
        }
        let v = self.cased(name, val);
        let l = self.get_target_layer(name, layer);
        if self.environ.contains_key(name) {
            self.env_set(name, v.as_str());
        }
        self.ensure_default(l, name);
        self.write_scalar(l, name, v.as_str())
    }

    /// The scalar append `name+=val`.
    pub fn append_param(&mut self, name: &str, val: &str, layer: Option<usize>) -> (r: Result<
        (),
        ExecError,
    >)
        requires
            old(self).wf(),
            layer matches Some(l) ==> l < old(self).params.len(),
        ensures
            final(self).wf(),
            final(self).params.len() == old(self).params.len(),
            final(self)@ == old(self)@.append_param(name@, val@, layer).0,
            outcome(r) == old(self)@.append_param(name@, val@, layer).1,
    {
        let vals = one_text(val);
        self.checks(name, Some(&vals))?;
        self.append_argv0(name, val, layer);
        if self.exports(name) && !self.environ.contains_key(name) {
            proof {
                reveal_strlit("");
                assert(""@ =~= Seq::<char>::empty());
            }
            self.env_set(name, "");
        }
        let v = self.cased(name, val);
        let l = self.get_target_layer(name, layer);
        if let Some(prev) = self.env_get(name) {
            let mut joined = prev;
            joined.append(v.as_str());
            self.env_set(name, joined.as_str());
        }
        self.ensure_default(l, name);
        self.append_scalar(l, name, v.as_str())
    }
}

impl DataBase {
    /// The write `name[pos]=val` into an indexed array, of integers where
    /// the name has the flag `i`. A negative `pos` counts back from the end
    /// of the array.
    pub fn set_array_elem(&mut self, name: &str, val: &str, pos: isize, layer: Option<usize>) -> (r:
        Result<(), ExecError>)
        requires
            old(self).wf(),
            layer matches Some(l) ==> l < old(self).params.len(),
        ensures
            final(self).wf(),
            final(self).params.len() == old(self).params.len(),
            final(self)@ == old(self)@.set_array_elem(name@, val@, pos, layer).0,
            outcome(r) == old(self)@.set_array_elem(name@, val@, pos, layer).1,
    {
        let vals = one_text(val);
        self.checks(name, Some(&vals))?;
        let l = self.get_target_layer(name, layer);
        let v = self.cased(name, val);
        let int_flag = self.has_flag(name, 'i');
        let ghost before = *self;
        proof {
            assert(layer_wf(self.params[l as int]));
        }
        let r = if int_flag {
            IntArrayData::set_elem(&mut self.params[l], name, pos, v.as_str())
        } else {
            ArrayData::set_elem(&mut self.params[l], name, pos, v.as_str())
        };
        proof {
            lemma_layer_changed(&before, self, l as int);
        }
        r
    }

    /// The append `name[pos]+=val` into an indexed array.
    pub fn append_to_array_elem(&mut self, name: &str, val: &str, pos: isize, layer: Option<usize>) -> (r:
        Result<(), ExecError>)
        requires
            old(self).wf(),
            layer matches Some(l) ==> l < old(self).params.len(),
        ensures
            final(self).wf(),
            final(self).params.len() == old(self).params.len(),
            final(self)@ == old(self)@.append_to_array_elem(name@, val@, pos, layer).0,
            outcome(r) == old(self)@.append_to_array_elem(name@, val@, pos, layer).1,
    {
        let vals = one_text(val);
        self.checks(name, Some(&vals))?;
        let v = self.cased(name, val);
        let l = self.get_target_layer(name, layer);
        let ghost before = *self;
        proof {
            assert(layer_wf(self.params[l as int]));
        }
        let r = ArrayData::append_elem(&mut self.params[l], name, pos, v.as_str());
        proof {
            lemma_layer_changed(&before, self, l as int);
        }
        r
    }

    /// The write `name[key]=val` into an associative array. A name that is
    /// new, declared without a value or a scalar becomes an associative
    /// array first, of integers where the name has the flag `i`; a scalar's
    /// value stays under the key `0`.
    pub fn set_assoc_elem(&mut self, name: &str, key: &str, val: &str, layer: Option<usize>) -> (r:
        Result<(), ExecError>)
        requires
            old(self).wf(),
            layer matches Some(l) ==> l < old(self).params.len(),
        ensures
            final(self).wf(),
            final(self).params.len() == old(self).params.len(),
            final(self)@ == old(self)@.set_assoc_elem(name@, key@, val@, layer).0,
            outcome(r) == old(self)@.set_assoc_elem(name@, key@, val@, layer).1,
    {
        let vals = one_text(val);
        self.checks(name, Some(&vals))?;
        let v = self.cased(name, val);
        let int_flag = self.has_flag(name, 'i');
        let l = self.get_target_layer(name, layer);
        let ghost before = *self;
        proof {
            assert(layer_wf(self.params[l as int]));
        }
        let r = AssocData::set_elem(&mut self.params[l], name, key, v.as_str(), int_flag);
        proof {
            lemma_layer_changed(&before, self, l as int);
        }
        r
    }

    /// The append `name[key]+=val` into an associative array, after the
    /// same promotion as for the write.
    pub fn append_to_assoc_elem(&mut self, name: &str, key: &str, val: &str, layer: Option<usize>) -> (r:
        Result<(), ExecError>)
        requires
            old(self).wf(),
            layer matches Some(l) ==> l < old(self).params.len(),
        ensures
            final(self).wf(),
            final(self).params.len() == old(self).params.len(),
            final(self)@ == old(self)@.append_to_assoc_elem(name@, key@, val@, layer).0,
            outcome(r) == old(self)@.append_to_assoc_elem(name@, key@, val@, layer).1,
    {
        let vals = one_text(val);
        self.checks(name, Some(&vals))?;
        let v = self.cased(name, val);
        let int_flag = self.has_flag(name, 'i');
        let l = self.get_target_layer(name, layer);
        let ghost before = *self;
        proof {
            assert(layer_wf(self.params[l as int]));
        }
        let r = AssocData::append_elem(&mut self.params[l], name, key, v.as_str(), int_flag);
        proof {
            lemma_layer_changed(&before, self, l as int);
        }
        r
    }

    /// Declares `name` as an indexed array: without a value where `v` is
    /// `None`, else with `v[i]` at position `i`, in lowercase where the name
    /// has the flag `l`.
    pub fn set_array(&mut self, name: &str, v: Option<Vec<String>>, layer: Option<usize>) -> (r: Result<
        (),
        ExecError,
    >)
        requires
            old(self).wf(),
            layer matches Some(l) ==> l < old(self).params.len(),
            v matches Some(vs) ==> vs.len() <= isize::MAX,
        ensures
            final(self).wf(),
            final(self).params.len() == old(self).params.len(),
            final(self)@ == old(self)@.set_array(
                name@,
                match v {
                    Some(vs) => Some(texts(vs@)),
                    None => None,
                },
                layer,
            ).0,
            outcome(r) == old(self)@.set_array(
                name@,
                match v {
                    Some(vs) => Some(texts(vs@)),
                    None => None,
                },
                layer,
            ).1,
    {
        self.checks(name, v.as_ref())?;
        let l_flag = self.has_flag(name, 'l');
        let l = self.get_target_layer(name, layer);
        match v {
            None => {
                self.put_data(l, name, Data::UninitArray);
            },
            Some(vs) => {
                let vs = if l_flag {
                    lowercase_all(&vs)
                } else {
                    vs
                };
                let a = ArrayData::from_values(vs);
                proof {
                    assert(a@ =~= array_of(texts(vs@)));
                }
                self.put_data(l, name, Data::Array(a));
            },
        }
        Ok(())
    }

    /// Declares `name` as an indexed array of integers and writes the values
    /// of `v` to the positions from 0 on. The first value that is refused
    /// stops the writes.
    #[verifier::loop_isolation(false)]
    pub fn set_int_array(&mut self, name: &str, v: Option<Vec<String>>, layer: Option<usize>) -> (r:
        Result<(), ExecError>)
        requires
            old(self).wf(),
            layer matches Some(l) ==> l < old(self).params.len(),
            v matches Some(vs) ==> vs.len() <= isize::MAX,
        ensures
            final(self).wf(),
            final(self).params.len() == old(self).params.len(),
            final(self)@ == old(self)@.set_int_array(
                name@,
                match v {
                    Some(vs) => Some(texts(vs@)),
                    None => None,
                },
                layer,
            ).0,
            outcome(r) == old(self)@.set_int_array(
                name@,
                match v {
                    Some(vs) => Some(texts(vs@)),
                    None => None,
                },
                layer,
            ).1,
    {
        self.checks(name, v.as_ref())?;
        let l = self.get_target_layer(name, layer);
        self.add_flag(l, name, 'i');
        self.put_data(l, name, Data::IntArray(IntArrayData::new()));
        if let Some(vs) = v {
            let ghost start = *self;
            let mut i: usize = 0;
            while i < vs.len()
                invariant
                    i <= vs.len(),
                    vs.len() <= isize::MAX,
                    self.wf(),
                    l < self.params.len(),
                    self.params.len() == start.params.len(),
                    start@.set_elems_from(name@, texts(vs@), 0, l) == self@.set_elems_from(
                        name@,
                        texts(vs@),
                        i as int,
                        l,
                    ),
                decreases vs.len() - i,
            {
                assert(texts(vs@)[i as int] == vs[i as int]@);
                let r = self.set_array_elem(name, vs[i].as_str(), i as isize, Some(l));
                if r.is_err() {
                    return r;
                }
                i += 1;
            }
        }
        Ok(())
    }

    /// Declares `name` as an empty associative array of integers.
    pub fn set_int_assoc(&mut self, name: &str, layer: Option<usize>) -> (r: Result<(), ExecError>)
        requires
            old(self).wf(),
            layer matches Some(l) ==> l < old(self).params.len(),
        ensures
            final(self).wf(),
            final(self).params.len() == old(self).params.len(),
            final(self)@ == old(self)@.set_int_assoc(name@, layer).0,
            outcome(r) == old(self)@.set_int_assoc(name@, layer).1,
    {
        self.checks(name, None)?;
        let l = self.get_target_layer(name, layer);
        self.add_flag(l, name, 'i');
        self.put_data(l, name, Data::IntAssoc(IntAssocData::new()));
        Ok(())
    }

    /// Declares `name` as an associative array: empty where `set_array`
    /// holds, else without a value.
    pub fn set_assoc(&mut self, name: &str, layer: Option<usize>, set_array: bool) -> (r: Result<
        (),
        ExecError,
    >)
        requires
            old(self).wf(),
            layer matches Some(l) ==> l < old(self).params.len(),
        ensures
            final(self).wf(),
            final(self).params.len() == old(self).params.len(),
            final(self)@ == old(self)@.set_assoc(name@, layer, set_array).0,
            outcome(r) == old(self)@.set_assoc(name@, layer, set_array).1,
    {
        self.checks(name, None)?;
        let l = self.get_target_layer(name, layer);
        if set_array {
            self.put_data(l, name, Data::Assoc(AssocData::new()));
        } else {
            self.put_data(l, name, Data::UninitAssoc);
        }
        Ok(())
    }

    /// Declares `name` as an integer with the value that `value` denotes, 0
    /// where it is empty.
    pub fn init_as_num(&mut self, name: &str, value: &str, layer: Option<usize>) -> (r: Result<
        (),
        ExecError,
    >)
        requires
            old(self).wf(),
            layer matches Some(l) ==> l < old(self).params.len(),
        ensures
            final(self).wf(),
            final(self).params.len() == old(self).params.len(),
            final(self)@ == old(self)@.init_as_num(name@, value@, layer).0,
            outcome(r) == old(self)@.init_as_num(name@, value@, layer).1,
    {
        let vals = one_text(value);
        self.checks(name, Some(&vals))?;
        let l = self.get_target_layer(name, layer);
        self.add_flag(l, name, 'i');
        let mut n: isize = 0;
        if !value.is_empty() {
            n = to_int(value)?;
        }
        self.put_data(l, name, Data::Int(n));
        Ok(())
    }

    /// The write `name[index]=val`, by the kind of `name` and the shape of
    /// `index`.
    pub fn set_param2(&mut self, name: &str, index: &str, val: &str, layer: Option<usize>) -> (r:
        Result<(), ExecError>)
        requires
            old(self).wf(),
            layer matches Some(l) ==> l < old(self).params.len(),
        ensures
            final(self).wf(),
            final(self).params.len() == old(self).params.len(),
            final(self)@ == old(self)@.set_param2(name@, index@, val@, layer).0,
            outcome(r) == old(self)@.set_param2(name@, index@, val@, layer).1,
    {
        if index.is_empty() {
            return self.set_param(name, val, layer);
        }
        if self.is_array(name) {
            if let Ok(n) = parse_isize(index) {
                return self.set_array_elem(name, val, n, layer);
            }
            Ok(())
        } else if self.is_assoc(name) {
            self.set_assoc_elem(name, index, val, layer)
        } else {
            match parse_isize(index) {
                Ok(n) => self.set_array_elem(name, val, n, layer),
                Err(_) => self.set_assoc_elem(name, index, val, layer),
            }
        }
    }

    /// The append `name[index]+=val`, by the kind of `name` and the shape of
    /// `index`.
    pub fn append_param2(&mut self, name: &str, index: &str, val: &str, layer: Option<usize>) -> (r:
        Result<(), ExecError>)
        requires
            old(self).wf(),
            layer matches Some(l) ==> l < old(self).params.len(),
        ensures
            final(self).wf(),
            final(self).params.len() == old(self).params.len(),
            final(self)@ == old(self)@.append_param2(name@, index@, val@, layer).0,
            outcome(r) == old(self)@.append_param2(name@, index@, val@, layer).1,
    {
        if index.is_empty() {
            return self.append_param(name, val, layer);
        }
        if self.is_array(name) {
            if let Ok(n) = parse_isize(index) {
                return self.append_to_array_elem(name, val, n, layer);
            }
            Ok(())
        } else if self.is_assoc(name) {
            self.append_to_assoc_elem(name, index, val, layer)
        } else {
            match parse_isize(index) {
                Ok(n) => self.append_to_array_elem(name, val, n, layer),
                Err(_) => self.append_to_assoc_elem(name, index, val, layer),
            }
        }
    }
}

/// The next step of a chain of writes: taken where the steps before went
/// through.
pub open spec fn and_then(
    prev: (DbView, Result<(), ExecErrorView>),
    next: spec_fn(DbView) -> (DbView, Result<(), ExecErrorView>),
) -> (DbView, Result<(), ExecErrorView>) {
    match prev.1 {
        Ok(()) => next(prev.0),
        Err(_) => prev,
    }
}

impl DbView {
    /// The store after the parameters that every shell starts with were
    /// set, one after the other, up to the first that was refused: the
    /// process id as `$` and `BASHPID`, `BASH_SUBSHELL`, `HOME`, `OPTIND`,
    /// `IFS`, the user id as the readonly integer `UID`, the arrays of the
    /// call stack and the table of remembered commands. Of the parameters
    /// that change by themselves, `RANDOM` and `SRANDOM` get the flag `i`
    /// here; their values, and those of `SECONDS`, `EPOCHSECONDS` and
    /// `EPOCHREALTIME`, come when `with_dynamic` is given them.
    pub open spec fn initialized(self, pid: Seq<char>, home: Seq<char>, uid: Seq<char>) -> (
        DbView,
        Result<(), ExecErrorView>,
    ) {
        let s0 = (DbView { exit_status: 0, ..self }).set_param("$"@, pid, None);
        let s1 = and_then(s0, |d: DbView| d.set_param("BASHPID"@, pid, None));
        let s2 = and_then(s1, |d: DbView| d.set_param("BASH_SUBSHELL"@, "0"@, None));
        let s3 = and_then(s2, |d: DbView| d.set_param("HOME"@, home, None));
        let s4 = and_then(s3, |d: DbView| d.set_param("OPTIND"@, "1"@, None));
        let s5 = and_then(s4, |d: DbView| d.set_param("IFS"@, " \t\n"@, None));
        let s6 = and_then(s5, |d: DbView| d.init_as_num("UID"@, uid, None));
        let s7 = and_then(
            s6,
            |d: DbView|
                (
                    d.with_options(0, "UID"@, "ir"@).with_options(0, "RANDOM"@, "i"@).with_options(
                        0,
                        "SRANDOM"@,
                        "i"@,
                    ),
                    Ok(()),
                ),
        );
        let s8 = and_then(s7, |d: DbView| d.set_array("FUNCNAME"@, None, None));
        let s9 = and_then(s8, |d: DbView| d.set_array("BASH_SOURCE"@, Some(Seq::empty()), None));
        let s10 = and_then(s9, |d: DbView| d.set_array("BASH_ARGC"@, Some(Seq::empty()), None));
        let s11 = and_then(s10, |d: DbView| d.set_array("BASH_ARGV"@, Some(Seq::empty()), None));
        let s12 = and_then(s11, |d: DbView| d.set_array("BASH_LINENO"@, Some(Seq::empty()), None));
        let s13 = and_then(s12, |d: DbView| d.set_array("DIRSTACK"@, Some(Seq::empty()), None));
        and_then(s13, |d: DbView| d.set_assoc("BASH_CMDS"@, None, false))
    }
}

/// `nix::unistd::getuid` with `Uid::as_raw`: the real user id of the
/// process, as a number. Nothing is claimed of it.
#[verifier::external_body]
fn current_uid() -> u32 {
    nix::unistd::getuid().as_raw()
}

/// An empty list of strings.
fn no_texts() -> (r: Option<Vec<String>>)
    ensures
        r matches Some(v) && v.len() == 0 && texts(v@) == Seq::<Seq<char>>::empty(),
{
    let v: Vec<String> = Vec::new();
    assert(texts(v@) =~= Seq::<Seq<char>>::empty());
    Some(v)
}

/// Sets the parameters that every shell starts with, for the process id
/// `pid`, the home directory `home` and the user id `uid`. The values of
/// the parameters that change by themselves are left to `set_dynamic`.
pub fn initialize_with(db: &mut DataBase, pid: u32, home: &str, uid: u32) -> (r: Result<(), ExecError>)
    requires
        old(db).wf(),
    ensures
        final(db).wf(),
        final(db)@ == old(db)@.initialized(numeral_of(pid as int), home@, numeral_of(uid as int)).0,
        outcome(r) == old(db)@.initialized(numeral_of(pid as int), home@, numeral_of(uid as int)).1,
{
    db.exit_status = 0;
    let pid_text = int_to_string(pid as i128);
    let uid_text = int_to_string(uid as i128);
    db.set_param("$", pid_text.as_str(), None)?;
    db.set_param("BASHPID", pid_text.as_str(), None)?;
    db.set_param("BASH_SUBSHELL", "0", None)?;
    db.set_param("HOME", home, None)?;
    db.set_param("OPTIND", "1", None)?;
    db.set_param("IFS", " \t\n", None)?;
    db.init_as_num("UID", uid_text.as_str(), None)?;
    db.set_options(0, "UID", "ir".to_owned());
    db.set_options(0, "RANDOM", "i".to_owned());
    db.set_options(0, "SRANDOM", "i".to_owned());
    db.set_array("FUNCNAME", None, None)?;
    db.set_array("BASH_SOURCE", no_texts(), None)?;
    db.set_array("BASH_ARGC", no_texts(), None)?;
    db.set_array("BASH_ARGV", no_texts(), None)?;
    db.set_array("BASH_LINENO", no_texts(), None)?;
    db.set_array("DIRSTACK", no_texts(), None)?;
    db.set_assoc("BASH_CMDS", None, false)
}

/// Sets the parameters that every shell starts with, for the process id
/// `pid` and the home directory `home`; the user id is asked of the system.
pub fn initialize(db: &mut DataBase, pid: u32, home: &str) -> (r: Result<(), ExecError>)
    requires
        old(db).wf(),
    ensures
        final(db).wf(),
        exists|uid: u32|
            final(db)@ == (#[trigger] old(db)@.initialized(
                numeral_of(pid as int),
                home@,
                numeral_of(uid as int),
            )).0 && outcome(r) == old(db)@.initialized(
                numeral_of(pid as int),
                home@,
                numeral_of(uid as int),
            ).1,
{
    let uid = current_uid();
    initialize_with(db, pid, home, uid)
}

impl DataBase {
    /// The store that a shell starts with, for the process id `pid` and the
    /// home directory `home`.
    pub fn new(pid: u32, home: &str) -> (r: DataBase)
        ensures
            r.wf(),
            exists|uid: u32|
                r@ == (#[trigger] DataBase::bare_view().initialized(
                    numeral_of(pid as int),
                    home@,
                    numeral_of(uid as int),
                )).0,
    {
        let mut data = DataBase::bare();
        let _ = initialize(&mut data, pid, home);
        data
    }
}

} // verus!
