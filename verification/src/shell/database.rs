//! The typed parameter store: named parameters in a stack of layers, each
//! layer with its table of values and its table of attribute flags, beside
//! the positional parameters, the functions and a mirror of the process
//! environment.

pub mod data;
pub mod database_checker;
pub mod database_dynamic;
pub mod database_getter;
pub mod database_laws;
pub mod database_setter;

use vstd::prelude::*;
use crate::error::exec::{ExecError, ExecErrorView};
use crate::shell::database::data::{
    apply_in,
    layer_view,
    layer_wf,
    lemma_layer_get,
    table_apply,
    table_clear,
    table_get,
    table_put,
    table_remove,
    table_to_str_type,
    Data,
    DataView,
    WriteOp,
};
use crate::utils::name_map::NameMap;
use crate::utils::text::{clone_strings, remove_char, texts, without};

verus! {

/// The parameter store.
#[derive(Debug)]
pub struct DataBase {
    /// The shell's own option letters; `r` restricts it, `a` exports every
    /// parameter that is written.
    pub flags: String,
    /// The table of values of each layer; layer 0 is global.
    pub params: Vec<NameMap<Data>>,
    /// The table of attribute flags of each layer.
    pub param_options: Vec<NameMap<String>>,
    /// The positional parameters of each call level; position 0 is the
    /// name of the shell or of the script.
    pub position_parameters: Vec<Vec<String>>,
    /// The source text of each function.
    pub functions: NameMap<String>,
    pub exit_status: i32,
    pub last_arg: String,
    /// How often each remembered command was used.
    pub hash_counter: NameMap<usize>,
    /// The process environment as the store left it: what a write to an
    /// exported parameter puts there stands here for the caller to apply.
    pub environ: NameMap<String>,
}

/// The store as plain values.
pub struct DbView {
    pub flags: Seq<char>,
    pub params: Seq<Map<Seq<char>, DataView>>,
    pub options: Seq<Map<Seq<char>, Seq<char>>>,
    pub positional: Seq<Seq<Seq<char>>>,
    pub functions: Map<Seq<char>, Seq<char>>,
    pub exit_status: i32,
    pub last_arg: Seq<char>,
    pub hash_counter: Map<Seq<char>, usize>,
    pub environ: Map<Seq<char>, Seq<char>>,
}

/// A table of texts as a map from names to texts.
pub open spec fn text_table_view(t: NameMap<String>) -> Map<Seq<char>, Seq<char>> {
    Map::new(|k: Seq<char>| t@.contains_key(k), |k: Seq<char>| t@[k]@)
}

impl DataBase {
    /// There is a global layer, every layer has its table of flags, there is
    /// a level of positional parameters, and every table is well formed.
    pub open spec fn wf(&self) -> bool {
        &&& self.params.len() >= 1
        &&& self.params.len() == self.param_options.len()
        &&& self.position_parameters.len() >= 1
        &&& forall|l: int| 0 <= l < self.params.len() ==> layer_wf(#[trigger] self.params[l])
        &&& forall|l: int| 0 <= l < self.param_options.len() ==> (#[trigger] self.param_options[l]).wf()
        &&& self.functions.wf()
        &&& self.hash_counter.wf()
        &&& self.environ.wf()
    }

    /// The store as plain values.
    pub open spec fn view(&self) -> DbView {
        DbView {
            flags: self.flags@,
            params: Seq::new(self.params.len() as nat, |l: int| layer_view(self.params[l])),
            options: Seq::new(
                self.param_options.len() as nat,
                |l: int| text_table_view(self.param_options[l]),
            ),
            positional: Seq::new(
                self.position_parameters.len() as nat,
                |l: int| texts(self.position_parameters[l]@),
            ),
            functions: text_table_view(self.functions),
            exit_status: self.exit_status,
            last_arg: self.last_arg@,
            hash_counter: self.hash_counter@,
            environ: text_table_view(self.environ),
        }
    }
}

impl DbView {
    /// The shape of a well-formed store.
    pub open spec fn wf(self) -> bool {
        &&& self.params.len() >= 1
        &&& self.params.len() == self.options.len()
        &&& self.positional.len() >= 1
    }

    /// The number of layers.
    pub open spec fn layers(self) -> int {
        self.params.len() as int
    }

    /// The innermost layer that holds `name`, if any does.
    pub open spec fn layer_pos(self, name: Seq<char>) -> Option<int> {
        self.layer_pos_below(name, self.layers())
    }

    /// The innermost layer below `top` that holds `name`, if any does.
    pub open spec fn layer_pos_below(self, name: Seq<char>, top: int) -> Option<int>
        decreases top,
    {
        if top <= 0 {
            None
        } else if self.params[top - 1].contains_key(name) {
            Some(top - 1)
        } else {
            self.layer_pos_below(name, top - 1)
        }
    }

    /// The layer that an unqualified write to `name` lands in: the innermost
    /// that holds the name, else the global one.
    pub open spec fn solve_layer(self, name: Seq<char>) -> int {
        match self.layer_pos(name) {
            Some(l) => l,
            None => 0,
        }
    }

    /// The layer that a write to `name` lands in: the explicit one wins.
    pub open spec fn target_layer(self, name: Seq<char>, layer: Option<usize>) -> int {
        match layer {
            Some(l) => l as int,
            None => self.solve_layer(name),
        }
    }

    /// What `name` holds in the innermost layer that has it.
    pub open spec fn data(self, name: Seq<char>) -> Option<DataView> {
        match self.layer_pos(name) {
            Some(l) => Some(self.params[l][name]),
            None => None,
        }
    }

    /// The store with `d` under `name` in layer `l`.
    pub open spec fn with_data(self, l: int, name: Seq<char>, d: DataView) -> DbView {
        self.with_layer(l, self.params[l].insert(name, d))
    }

    /// Whether the flags of `name`, in the innermost layer, hold `flag`.
    pub open spec fn has_flag(self, name: Seq<char>, flag: char) -> bool {
        self.options.len() > 0 && self.options.last().contains_key(name)
            && self.options.last()[name].contains(flag)
    }

    /// With a new innermost layer: no values, and the flags it found.
    pub open spec fn push_local(self) -> DbView {
        DbView {
            params: self.params.push(Map::empty()),
            options: self.options.push(self.options.last()),
            ..self
        }
    }

    /// Without the innermost layer.
    pub open spec fn pop_local(self) -> DbView {
        DbView { params: self.params.drop_last(), options: self.options.drop_last(), ..self }
    }

    /// With the value of `name` in layer `l` emptied, if it has one there.
    /// A readonly name keeps its value, and the exit status is then 1.
    pub open spec fn init(self, name: Seq<char>, l: int) -> DbView {
        if self.has_flag(name, 'r') {
            self.refused()
        } else if self.params[l].contains_key(name) {
            self.with_data(l, name, self.params[l][name].cleared())
        } else {
            self
        }
    }

    /// Without the variable `name`: gone from every layer, with its flags,
    /// and from the environment.
    pub open spec fn removed(self, name: Seq<char>) -> DbView {
        DbView {
            params: Seq::new(self.params.len(), |l: int| self.params[l].remove(name)),
            options: Seq::new(self.options.len(), |l: int| self.options[l].remove(name)),
            environ: self.environ.remove(name),
            ..self
        }
    }

    /// The store after a removal was refused because the name is readonly:
    /// the exit status is 1, and nothing else has changed.
    pub open spec fn refused(self) -> DbView {
        DbView { exit_status: 1, ..self }
    }

    /// The removal of the variable `name`. A readonly name refuses it and
    /// keeps its value, its flags and its place in the environment; any
    /// other name is gone from every layer, with its flags, and from the
    /// environment.
    pub open spec fn unset_var(self, name: Seq<char>) -> (DbView, Result<(), ExecErrorView>) {
        if self.has_flag(name, 'r') {
            (self.refused(), Err(ExecErrorView::ReadOnly(name)))
        } else {
            (self.removed(name), Ok(()))
        }
    }

    /// The write `op` applied to what `name` holds in layer `l`.
    pub open spec fn apply_at(
        self,
        l: int,
        name: Seq<char>,
        op: WriteOp,
        key: Seq<char>,
        value: Seq<char>,
    ) -> (DbView, Result<(), ExecErrorView>) {
        let (t, r) = apply_in(self.params[l], name, op, key, value);
        (self.with_layer(l, t), r)
    }

    /// The store with `t` as the table of layer `l`.
    pub open spec fn with_layer(self, l: int, t: Map<Seq<char>, DataView>) -> DbView {
        DbView { params: self.params.update(l, t), ..self }
    }

    /// With `value` under `name` in the environment.
    pub open spec fn with_env(self, name: Seq<char>, value: Seq<char>) -> DbView {
        DbView { environ: self.environ.insert(name, value), ..self }
    }

    /// With `flags` as the flags of `name` in layer `l`.
    pub open spec fn with_options(self, l: int, name: Seq<char>, flags: Seq<char>) -> DbView {
        DbView { options: self.options.update(l, self.options[l].insert(name, flags)), ..self }
    }

    /// With `flag` added to the flags of `name` in layer `l`.
    pub open spec fn add_flag(self, l: int, name: Seq<char>, flag: char) -> DbView {
        self.with_options(
            l,
            name,
            if self.options[l].contains_key(name) {
                self.options[l][name].push(flag)
            } else {
                seq![flag]
            },
        )
    }

    /// The removal of the element that `key` addresses from what `name`
    /// holds in each layer from `l` on, stopping at the first failure.
    pub open spec fn remove_elem_from(self, name: Seq<char>, key: Seq<char>, l: int) -> (
        DbView,
        Result<(), ExecErrorView>,
    )
        decreases self.params.len() - l,
    {
        if l < 0 || l >= self.params.len() {
            (self, Ok(()))
        } else if self.params[l].contains_key(name) {
            match self.params[l][name].remove_elem(key) {
                Ok(d) => self.with_data(l, name, d).remove_elem_from(name, key, l + 1),
                Err(e) => (self, Err(e)),
            }
        } else {
            self.remove_elem_from(name, key, l + 1)
        }
    }

    /// The removal of one element of `name`. A readonly name refuses it.
    /// Position `0` and the wildcards stand for the whole of a scalar.
    pub open spec fn unset_array_elem(self, name: Seq<char>, key: Seq<char>) -> (
        DbView,
        Result<(), ExecErrorView>,
    ) {
        if self.has_flag(name, 'r') {
            (self.refused(), Err(ExecErrorView::ReadOnly(name)))
        } else if self.data(name) matches Some(d) && d.is_single() && (key == seq!['0']
            || crate::shell::database::data::array::is_wildcard(key)) {
            (self.removed(name), Ok(()))
        } else {
            self.remove_elem_from(name, key, 0)
        }
    }

    /// With the integer flag of `name` dropped from layer `l` on, and what
    /// it holds in layer `l` turned into texts.
    pub open spec fn int_to_str_type(self, name: Seq<char>, l: int) -> DbView {
        DbView {
            options: Seq::new(
                self.options.len(),
                |i: int|
                    if i >= l && self.options[i].contains_key(name) {
                        self.options[i].insert(name, without(self.options[i][name], 'i'))
                    } else {
                        self.options[i]
                    },
            ),
            params: if self.params[l].contains_key(name) {
                self.params.update(l, self.params[l].insert(name, self.params[l][name].str_type()))
            } else {
                self.params
            },
            ..self
        }
    }

    /// Without the function `name`.
    pub open spec fn unset_function(self, name: Seq<char>) -> DbView {
        DbView { functions: self.functions.remove(name), ..self }
    }

    /// The removal of the variable and of the function `name`. Where the
    /// variable is readonly, neither is removed.
    pub open spec fn unset(self, name: Seq<char>) -> (DbView, Result<(), ExecErrorView>) {
        match self.unset_var(name).1 {
            Ok(()) => (self.unset_var(name).0.unset_function(name), Ok(())),
            Err(e) => (self.unset_var(name).0, Err(e)),
        }
    }
}

impl DataBase {
    /// The number of layers.
    pub fn get_layer_num(&self) -> (n: usize)
        requires
            self.wf(),
        ensures
            n == self@.layers(),
            n >= 1,
    {
        self.params.len()
    }

    /// The innermost layer that holds `name`, if any does.
    pub fn get_layer_pos(&self, name: &str) -> (r: Option<usize>)
        requires
            self.wf(),
        ensures
            match r {
                Some(l) => self@.layer_pos(name@) == Some(l as int) && l < self.params.len()
                    && self.params[l as int]@.contains_key(name@),
                None => self@.layer_pos(name@) is None,
            },
    {
        let mut top: usize = self.params.len();
        while top > 0
            invariant
                self.wf(),
                top <= self.params.len(),
                self@.layer_pos(name@) == self@.layer_pos_below(name@, top as int),
            decreases top,
        {
            if self.params[top - 1].contains_key(name) {
                return Some(top - 1);
            }
            top -= 1;
        }
        None
    }

    /// The layer that an unqualified write to `name` lands in.
    pub fn solve_layer(&self, name: &str) -> (l: usize)
        requires
            self.wf(),
        ensures
            l == self@.solve_layer(name@),
            l < self.params.len(),
    {
        match self.get_layer_pos(name) {
            Some(l) => l,
            None => 0,
        }
    }

    /// The layer that a write to `name` lands in: the explicit one wins, else
    /// the innermost that holds the name, else the global one.
    pub fn get_target_layer(&self, name: &str, layer: Option<usize>) -> (l: usize)
        requires
            self.wf(),
        ensures
            l == self@.target_layer(name@, layer),
            layer is None ==> l < self.params.len(),
    {
        match layer {
            Some(n) => n,
            None => self.solve_layer(name),
        }
    }

    /// What `name` holds in the innermost layer that has it.
    pub fn get_ref(&self, name: &str) -> (r: Option<&Data>)
        requires
            self.wf(),
        ensures
            match r {
                Some(d) => self@.data(name@) == Some(d@) && d.wf(),
                None => self@.data(name@) is None,
            },
    {
        match self.get_layer_pos(name) {
            Some(l) => {
                proof {
                    lemma_layer_get(self.params[l as int], name@);
                }
                self.params[l].get(name)
            },
            None => None,
        }
    }
}

impl DataBase {
    /// The store with one empty layer and no positional parameters.
    pub open spec fn bare_view() -> DbView {
        DbView {
            flags: "B"@,
            params: seq![Map::empty()],
            options: seq![Map::empty()],
            positional: seq![Seq::empty()],
            functions: Map::empty(),
            exit_status: 0,
            last_arg: Seq::empty(),
            hash_counter: Map::empty(),
            environ: Map::empty(),
        }
    }

    /// A store with one empty layer and no positional parameters.
    pub fn bare() -> (r: Self)
        ensures
            r.wf(),
            r@ == Self::bare_view(),
    {
        let mut params: Vec<NameMap<Data>> = Vec::new();
        params.push(NameMap::new());
        let mut param_options: Vec<NameMap<String>> = Vec::new();
        param_options.push(NameMap::new());
        let mut position_parameters: Vec<Vec<String>> = Vec::new();
        position_parameters.push(Vec::new());
        let r = DataBase {
            flags: "B".to_owned(),
            params,
            param_options,
            position_parameters,
            functions: NameMap::new(),
            exit_status: 0,
            last_arg: String::new(),
            hash_counter: NameMap::new(),
            environ: NameMap::new(),
        };
        proof {
            assert(r@.params =~~= seq![Map::empty()]);
            assert(r@.options =~~= seq![Map::empty()]);
            assert(r@.positional =~~= seq![Seq::empty()]);
            assert(r@.functions =~= Map::empty());
            assert(r@.environ =~= Map::empty());
        }
        r
    }

    /// Puts `d` under `name` in layer `layer`. This is what the checked
    /// writes are made of: the flags of the name are not consulted.
    pub fn put_data(&mut self, layer: usize, name: &str, d: Data)
        requires
            old(self).wf(),
            layer < old(self).params.len(),
            d.wf(),
        ensures
            final(self).wf(),
            final(self).params.len() == old(self).params.len(),
            final(self)@ == old(self)@.with_data(layer as int, name@, d@),
    {
        let ghost before = *self;
        proof {
            assert(layer_wf(before.params[layer as int]));
        }
        table_put(&mut self.params[layer], name, d);
        proof {
            assert forall|l: int| 0 <= l < self.params.len() implies layer_wf(
                #[trigger] self.params[l],
            ) by {
                if l != layer {
                    assert(self.params[l] == before.params[l]);
                }
            }
            assert(self@.params =~= before@.with_data(layer as int, name@, d@).params);
        }
    }

    /// Applies the write `op` to what `name` holds in layer `layer`. This
    /// is what the checked writes are made of: the flags of the name are
    /// not consulted.
    pub fn apply_at(&mut self, layer: usize, name: &str, op: WriteOp, key: &str, value: &str) -> (r:
        Result<(), ExecError>)
        requires
            old(self).wf(),
            layer < old(self).params.len(),
            old(self)@.params[layer as int].contains_key(name@),
        ensures
            final(self).wf(),
            final(self).params.len() == old(self).params.len(),
            final(self)@ == old(self)@.apply_at(layer as int, name@, op, key@, value@).0,
            crate::error::exec::outcome(r) == old(self)@.apply_at(
                layer as int,
                name@,
                op,
                key@,
                value@,
            ).1,
    {
        let ghost before = *self;
        proof {
            assert(layer_wf(before.params[layer as int]));
        }
        let r = table_apply(&mut self.params[layer], name, op, key, value);
        proof {
            assert forall|l: int| 0 <= l < self.params.len() implies layer_wf(
                #[trigger] self.params[l],
            ) by {
                if l != layer {
                    assert(self.params[l] == before.params[l]);
                }
            }
            assert(self@.params =~= before@.apply_at(layer as int, name@, op, key@, value@).0.params);
        }
        r
    }

    /// Puts `value` under `name` in the environment.
    pub fn env_set(&mut self, name: &str, value: &str)
        requires
            old(self).wf(),
        ensures
            final(self).wf(),
            final(self).params.len() == old(self).params.len(),
            final(self)@ == old(self)@.with_env(name@, value@),
    {
        let ghost before = *self;
        self.environ.insert(name, value.to_owned());
        proof {
            assert(self@.environ =~= before@.with_env(name@, value@).environ);
        }
    }

    /// What the environment holds under `name`.
    pub fn env_get(&self, name: &str) -> (r: Option<String>)
        requires
            self.wf(),
        ensures
            match r {
                Some(v) => self@.environ.contains_key(name@) && self@.environ[name@] == v@,
                None => !self@.environ.contains_key(name@),
            },
    {
        match self.environ.get(name) {
            Some(v) => Some(v.clone()),
            None => None,
        }
    }

    /// Makes `flags` the flags of `name` in layer `layer`.
    pub fn set_options(&mut self, layer: usize, name: &str, flags: String)
        requires
            old(self).wf(),
            layer < old(self).param_options.len(),
        ensures
            final(self).wf(),
            final(self).params.len() == old(self).params.len(),
            final(self)@ == old(self)@.with_options(layer as int, name@, flags@),
    {
        let ghost before = *self;
        proof {
            assert(before.param_options[layer as int].wf());
        }
        self.param_options[layer].insert(name, flags);
        proof {
            assert forall|l: int| 0 <= l < self.param_options.len() implies (
            #[trigger] self.param_options[l]).wf() by {
                if l != layer {
                    assert(self.param_options[l] == before.param_options[l]);
                }
            }
            assert(text_table_view(self.param_options[layer as int]) =~= text_table_view(
                before.param_options[layer as int],
            ).insert(name@, flags@));
            assert(self@.options =~= before@.with_options(layer as int, name@, flags@).options);
        }
    }

    /// Adds `flag` to the flags of `name` in layer `layer`.
    pub fn add_flag(&mut self, layer: usize, name: &str, flag: char)
        requires
            old(self).wf(),
            layer < old(self).param_options.len(),
        ensures
            final(self).wf(),
            final(self).params.len() == old(self).params.len(),
            final(self)@ == old(self)@.add_flag(layer as int, name@, flag),
    {
        proof {
            assert(self.param_options[layer as int].wf());
            if self.param_options[layer as int]@.contains_key(name@) {
                self.param_options[layer as int].lemma_has(name@);
            }
        }
        let mut flags = match self.param_options[layer].get(name) {
            Some(e) => e.clone(),
            None => String::new(),
        };
        flags.push(flag);
        assert(Seq::<char>::empty().push(flag) =~= seq![flag]);
        self.set_options(layer, name, flags);
    }

    /// Opens a new innermost layer: no values, and the flags of the layer
    /// that was innermost.
    pub fn push_local(&mut self)
        requires
            old(self).wf(),
        ensures
            final(self).wf(),
            final(self)@ == old(self)@.push_local(),
    {
        let ghost before = *self;
        self.params.push(NameMap::new());
        let top = self.param_options.len() - 1;
        proof {
            assert(self.param_options[top as int].wf());
        }
        let names = clone_strings(&self.param_options[top].names);
        let values = clone_strings(&self.param_options[top].values);
        let copy = NameMap { names, values };
        proof {
            assert(copy.wf());
            assert(text_table_view(copy) =~= text_table_view(before.param_options[top as int]));
        }
        self.param_options.push(copy);
        proof {
            assert forall|l: int| 0 <= l < self.params.len() implies layer_wf(
                #[trigger] self.params[l],
            ) by {
                if l < before.params.len() {
                    assert(self.params[l] == before.params[l]);
                }
            }
            assert forall|l: int| 0 <= l < self.param_options.len() implies (
            #[trigger] self.param_options[l]).wf() by {
                if l < before.param_options.len() {
                    assert(self.param_options[l] == before.param_options[l]);
                }
            }
            assert(layer_view(self.params[before.params.len() as int]) =~= Map::empty());
            assert(self@.params =~= before@.push_local().params);
            assert(self@.options =~= before@.push_local().options);
        }
    }

    /// Closes the innermost layer. The global layer stays.
    pub fn pop_local(&mut self)
        requires
            old(self).wf(),
            old(self).params.len() > 1,
        ensures
            final(self).wf(),
            final(self)@ == old(self)@.pop_local(),
    {
        let ghost before = *self;
        self.params.pop();
        self.param_options.pop();
        proof {
            assert forall|l: int| 0 <= l < self.params.len() implies layer_wf(
                #[trigger] self.params[l],
            ) by {
                assert(self.params[l] == before.params[l]);
            }
            assert forall|l: int| 0 <= l < self.param_options.len() implies (
            #[trigger] self.param_options[l]).wf() by {
                assert(self.param_options[l] == before.param_options[l]);
            }
            assert(self@.params =~= before@.pop_local().params);
            assert(self@.options =~= before@.pop_local().options);
        }
    }

    /// Empties what `name` holds in layer `layer`, if it holds anything
    /// there; the variant stays. A readonly name keeps its value, and the
    /// exit status is then 1.
    pub fn init(&mut self, name: &str, layer: usize)
        requires
            old(self).wf(),
            layer < old(self).params.len(),
        ensures
            final(self).wf(),
            final(self).params.len() == old(self).params.len(),
            final(self)@ == old(self)@.init(name@, layer as int),
    {
        if self.write_check(name).is_err() {
            return ;
        }
        let ghost before = *self;
        proof {
            assert(layer_wf(before.params[layer as int]));
        }
        table_clear(&mut self.params[layer], name);
        proof {
            assert forall|l: int| 0 <= l < self.params.len() implies layer_wf(
                #[trigger] self.params[l],
            ) by {
                if l != layer {
                    assert(self.params[l] == before.params[l]);
                }
            }
            assert(self@.params =~= before@.init(name@, layer as int).params);
        }
    }

    /// Removes the variable `name` from every layer, with its flags, and
    /// from the environment. A readonly variable refuses the removal and
    /// stays as it is; the exit status is then 1.
    pub fn unset_var(&mut self, name: &str) -> (r: Result<(), ExecError>)
        requires
            old(self).wf(),
        ensures
            final(self).wf(),
            final(self).params.len() == old(self).params.len(),
            final(self)@ == old(self)@.unset_var(name@).0,
            crate::error::exec::outcome(r) == old(self)@.unset_var(name@).1,
    {
        self.write_check(name)?;
        let ghost before = *self;
        self.environ.remove(name);
        assert(text_table_view(self.environ) =~= text_table_view(before.environ).remove(name@));
        let n = self.params.len();
        let mut l: usize = 0;
        while l < n
            invariant
                l <= n,
                self.flags == before.flags,
                self.position_parameters == before.position_parameters,
                self.functions == before.functions,
                self.exit_status == before.exit_status,
                self.last_arg == before.last_arg,
                self.hash_counter == before.hash_counter,
                self.environ.wf(),
                text_table_view(self.environ) == text_table_view(before.environ).remove(name@),
                n == self.params.len(),
                n == before.params.len(),
                n == self.param_options.len(),
                n == before.param_options.len(),
                before.wf(),
                forall|i: int| 0 <= i < n ==> layer_wf(#[trigger] self.params[i]),
                forall|i: int| 0 <= i < n ==> (#[trigger] self.param_options[i]).wf(),
                forall|i: int|
                    0 <= i < l ==> layer_view(#[trigger] self.params[i]) == layer_view(
                        before.params[i],
                    ).remove(name@),
                forall|i: int| l <= i < n ==> self.params[i] == before.params[i],
                forall|i: int|
                    0 <= i < l ==> text_table_view(#[trigger] self.param_options[i])
                        == text_table_view(before.param_options[i]).remove(name@),
                forall|i: int| l <= i < n ==> self.param_options[i] == before.param_options[i],
            decreases n - l,
        {
            let ghost mid = *self;
            proof {
                assert(layer_wf(mid.params[l as int]));
                assert(mid.param_options[l as int].wf());
            }
            table_remove(&mut self.params[l], name);
            self.param_options[l].remove(name);
            proof {
                assert(text_table_view(self.param_options[l as int]) =~= text_table_view(
                    mid.param_options[l as int],
                ).remove(name@));
                assert forall|i: int| 0 <= i < n implies layer_wf(#[trigger] self.params[i]) by {
                    if i != l {
                        assert(self.params[i] == mid.params[i]);
                    }
                }
                assert forall|i: int| 0 <= i < n implies (#[trigger] self.param_options[i]).wf() by {
                    if i != l {
                        assert(self.param_options[i] == mid.param_options[i]);
                    }
                }
                assert forall|i: int| 0 <= i < l + 1 implies layer_view(#[trigger] self.params[i])
                    == layer_view(before.params[i]).remove(name@) by {
                    if i != l {
                        assert(self.params[i] == mid.params[i]);
                    }
                }
                assert forall|i: int| 0 <= i < l + 1 implies text_table_view(
                    #[trigger] self.param_options[i],
                ) == text_table_view(before.param_options[i]).remove(name@) by {
                    if i != l {
                        assert(self.param_options[i] == mid.param_options[i]);
                    }
                }
            }
            l += 1;
        }
        proof {
            assert(self@.environ =~= before@.removed(name@).environ);
            assert(self@.params =~= before@.removed(name@).params);
            assert(self@.options =~= before@.removed(name@).options);
        }
        Ok(())
    }

    /// Removes the function `name`.
    pub fn unset_function(&mut self, name: &str)
        requires
            old(self).wf(),
        ensures
            final(self).wf(),
            final(self).params.len() == old(self).params.len(),
            final(self)@ == old(self)@.unset_function(name@),
    {
        let ghost before = *self;
        self.functions.remove(name);
        proof {
            assert(self@.functions =~= before@.unset_function(name@).functions);
        }
    }

    /// Removes the variable and the function `name`. Where the variable is
    /// readonly, the removal is refused and neither is removed.
    pub fn unset(&mut self, name: &str) -> (r: Result<(), ExecError>)
        requires
            old(self).wf(),
        ensures
            final(self).wf(),
            final(self).params.len() == old(self).params.len(),
            final(self)@ == old(self)@.unset(name@).0,
            crate::error::exec::outcome(r) == old(self)@.unset(name@).1,
    {
        self.unset_var(name)?;
        self.unset_function(name);
        Ok(())
    }
}

impl DataBase {
    /// Removes one element of `name`, in every layer that holds the name. A
    /// readonly name refuses the removal. Position `0` and the wildcards
    /// stand for the whole of a scalar, which is then unset. The first
    /// failure stops the removal.
    pub fn unset_array_elem(&mut self, name: &str, key: &str) -> (r: Result<(), ExecError>)
        requires
            old(self).wf(),
        ensures
            final(self).wf(),
            final(self)@ == old(self)@.unset_array_elem(name@, key@).0,
            crate::error::exec::outcome(r) == old(self)@.unset_array_elem(name@, key@).1,
    {
        self.write_check(name)?;
        let ghost before = *self;
        if self.is_single(name) {
            proof {
                reveal_strlit("0");
                assert("0"@ =~= seq!['0']);
            }
            if crate::utils::text::str_eq(key, "0") || crate::shell::database::data::array::wildcard(
                key,
            ) {
                return self.unset_var(name);
            }
        }
        let n = self.params.len();
        let mut l: usize = 0;
        while l < n
            invariant
                l <= n,
                n == self.params.len(),
                self.wf(),
                before@ == old(self)@,
                before@.unset_array_elem(name@, key@) == before@.remove_elem_from(name@, key@, 0),
                before@.remove_elem_from(name@, key@, 0) == self@.remove_elem_from(
                    name@,
                    key@,
                    l as int,
                ),
            decreases n - l,
        {
            proof {
                assert(layer_wf(self.params[l as int]));
            }
            let ghost mid = *self;
            if table_get(&self.params[l], name).is_some() {
                let r = self.apply_at(l, name, WriteOp::Remove, key, "");
                proof {
                    assert(mid@.params[l as int][name@].apply(WriteOp::Remove, key@, ""@)
                        == mid@.params[l as int][name@].remove_elem(key@));
                    if r is Err {
                        assert(mid@.params.update(l as int, mid@.params[l as int]) =~= mid@.params);
                    }
                }
                if r.is_err() {
                    return r;
                }
            }
            l += 1;
        }
        Ok(())
    }

    /// Drops the integer flag of `name` from layer `layer` on, and turns
    /// what it holds in that layer into texts.
    pub fn int_to_str_type(&mut self, name: &str, layer: usize) -> (r: Result<(), ExecError>)
        requires
            old(self).wf(),
            layer < old(self).params.len(),
        ensures
            final(self).wf(),
            r is Ok,
            final(self)@ == old(self)@.int_to_str_type(name@, layer as int),
    {
        let ghost before = *self;
        let n = self.param_options.len();
        let mut ly: usize = layer;
        proof {
            assert(self@.options =~= Seq::new(
                n as nat,
                |i: int|
                    if layer <= i < layer && before@.options[i].contains_key(name@) {
                        before@.options[i].insert(name@, without(before@.options[i][name@], 'i'))
                    } else {
                        before@.options[i]
                    },
            ));
        }
        while ly < n
            invariant
                layer <= ly <= n,
                n == self.param_options.len(),
                self.wf(),
                before.wf(),
                n == before.param_options.len(),
                self@ == (DbView {
                    options: Seq::new(
                        n as nat,
                        |i: int|
                            if layer <= i < ly && before@.options[i].contains_key(name@) {
                                before@.options[i].insert(name@, without(before@.options[i][name@], 'i'))
                            } else {
                                before@.options[i]
                            },
                    ),
                    ..before@
                }),
            decreases n - ly,
        {
            let ghost mid = *self;
            proof {
                assert(self.param_options[ly as int].wf());
                if self.param_options[ly as int]@.contains_key(name@) {
                    self.param_options[ly as int].lemma_has(name@);
                }
            }
            let found = match self.param_options[ly].get(name) {
                Some(opt) => Some(remove_char(opt.as_str(), 'i')),
                None => None,
            };
            if let Some(flags) = found {
                self.set_options(ly, name, flags);
            }
            proof {
                assert(self@.options =~= Seq::new(
                    n as nat,
                    |i: int|
                        if layer <= i < ly + 1 && before@.options[i].contains_key(name@) {
                            before@.options[i].insert(name@, without(before@.options[i][name@], 'i'))
                        } else {
                            before@.options[i]
                        },
                ));
            }
            ly += 1;
        }
        let ghost mid = *self;
        proof {
            assert(layer_wf(self.params[layer as int]));
        }
        table_to_str_type(&mut self.params[layer], name);
        proof {
            assert forall|l: int| 0 <= l < self.params.len() implies layer_wf(
                #[trigger] self.params[l],
            ) by {
                if l != layer {
                    assert(self.params[l] == mid.params[l]);
                }
            }
            assert(self@.params =~= before@.int_to_str_type(name@, layer as int).params);
            assert(self@.options =~= before@.int_to_str_type(name@, layer as int).options);
        }
        Ok(())
    }

    /// Adds `flag` to the flags of `name`: in layer `layer`, or in the layer
    /// of the innermost level of positional parameters.
    pub fn set_flag(&mut self, name: &str, flag: char, layer: Option<usize>)
        requires
            old(self).wf(),
            match layer {
                Some(l) => l < old(self).param_options.len(),
                None => old(self).position_parameters.len() <= old(self).param_options.len(),
            },
        ensures
            final(self).wf(),
            final(self)@ == old(self)@.add_flag(
                match layer {
                    Some(l) => l as int,
                    None => old(self)@.positional.len() - 1,
                },
                name@,
                flag,
            ),
    {
        let layer = match layer {
            None => self.position_parameters.len() - 1,
            Some(lay) => lay,
        };
        self.add_flag(layer, name, flag);
    }
}

} // verus!
