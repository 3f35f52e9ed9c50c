//! What the store checks before it writes, and what it answers about the
//! kind of a parameter.

use vstd::prelude::*;
use crate::error::exec::{ExecError, ExecErrorView};
use crate::shell::database::{DataBase, DbView};
use crate::utils::number::{parse_position_spec, parse_usize};
use crate::utils::param_name::{is_param, is_param_name};
use crate::utils::text::{contains_char, str_eq, texts};

verus! {

/// The names that a restricted shell does not let anyone write.
pub open spec fn is_fixed_when_restricted(name: Seq<char>) -> bool {
    name == "SHELL"@ || name == "PATH"@ || name == "ENV"@ || name == "BASH_ENV"@
}

/// The first of the values from index `i` on that looks like a path.
pub open spec fn first_path_like(values: Seq<Seq<char>>, i: int) -> Option<Seq<char>>
    decreases values.len() - i,
{
    if i < 0 || i >= values.len() {
        None
    } else if values[i].contains('/') {
        Some(values[i])
    } else {
        first_path_like(values, i + 1)
    }
}

/// Whether the text names a parameter.
pub open spec fn name_check_spec(name: Seq<char>) -> Result<(), ExecErrorView> {
    if is_param(name) {
        Ok(())
    } else {
        Err(ExecErrorView::InvalidName(name))
    }
}

impl DbView {
    /// A readonly parameter refuses every write.
    pub open spec fn write_check(self, name: Seq<char>) -> Result<(), ExecErrorView> {
        if self.has_flag(name, 'r') {
            Err(ExecErrorView::ReadOnly(name))
        } else {
            Ok(())
        }
    }

    /// What a restricted shell refuses: a write to one of its fixed names,
    /// and a value with a `/` in it for the table of remembered commands.
    pub open spec fn restricted_check(self, name: Seq<char>, values: Option<Seq<Seq<char>>>) -> Result<
        (),
        ExecErrorView,
    > {
        if !self.flags.contains('r') {
            Ok(())
        } else if is_fixed_when_restricted(name) {
            Err(ExecErrorView::ReadOnly(name))
        } else if name == "BASH_CMDS"@ && values is Some {
            match first_path_like(values->0, 0) {
                Some(v) => Err(ExecErrorView::Restricted(v)),
                None => Ok(()),
            }
        } else {
            Ok(())
        }
    }

    /// The three checks before a write, in their order: the name, the
    /// readonly flag, the restricted shell.
    pub open spec fn checks(self, name: Seq<char>, values: Option<Seq<Seq<char>>>) -> Result<
        (),
        ExecErrorView,
    > {
        if name_check_spec(name) is Err {
            name_check_spec(name)
        } else if self.write_check(name) is Err {
            self.write_check(name)
        } else {
            self.restricted_check(name, values)
        }
    }

    /// The store after the checks: a write refused as readonly sets the exit
    /// status to 1.
    pub open spec fn checked(self, name: Seq<char>) -> DbView {
        if name_check_spec(name) is Ok && self.write_check(name) is Err {
            DbView { exit_status: 1, ..self }
        } else {
            self
        }
    }

    /// Whether a parameter called `name` exists: a positional one where the
    /// name is a position, else one in some layer.
    pub open spec fn exist(self, name: Seq<char>) -> bool {
        match parse_position_spec(name) {
            Ok(n) => n < self.positional.last().len(),
            Err(_) => self.layer_pos(name) is Some,
        }
    }

    /// Whether `name` holds an indexed array.
    pub open spec fn is_array(self, name: Seq<char>) -> bool {
        self.data(name) matches Some(d) && d.is_array()
    }

    /// Whether `name` holds an associative array.
    pub open spec fn is_assoc(self, name: Seq<char>) -> bool {
        self.data(name) matches Some(d) && d.is_assoc()
    }

    /// Whether `name` holds a scalar.
    pub open spec fn is_single(self, name: Seq<char>) -> bool {
        self.data(name) matches Some(d) && d.is_single()
    }

    /// Whether `name` holds an integer scalar.
    pub open spec fn is_single_num(self, name: Seq<char>) -> bool {
        self.data(name) matches Some(d) && d.is_single_num()
    }

    /// Whether `key` addresses an element of `name`.
    pub open spec fn has_key(self, name: Seq<char>, key: Seq<char>) -> Result<bool, ExecErrorView> {
        match self.data(name) {
            Some(d) => d.has_key(key),
            None => Ok(false),
        }
    }
}

impl DataBase {
    /// Refuses a text that does not name a parameter.
    pub fn name_check(name: &str) -> (r: Result<(), ExecError>)
        ensures
            crate::error::exec::outcome(r) == name_check_spec(name@),
    {
        if !is_param_name(name) {
            return Err(ExecError::InvalidName(name.to_owned()));
        }
        Ok(())
    }

    /// Whether the flags of `name`, in the innermost layer, hold `flag`.
    pub fn has_flag(&self, name: &str, flag: char) -> (r: bool)
        requires
            self.wf(),
        ensures
            r == self@.has_flag(name@, flag),
    {
        let layer = self.param_options.len() - 1;
        proof {
            assert(self.param_options[layer as int].wf());
            if self.param_options[layer as int]@.contains_key(name@) {
                self.param_options[layer as int].lemma_has(name@);
            }
        }
        match self.param_options[layer].get(name) {
            None => false,
            Some(e) => contains_char(e.as_str(), flag),
        }
    }

    /// Whether `name` has the flag `r`.
    pub fn is_readonly(&self, name: &str) -> (r: bool)
        requires
            self.wf(),
        ensures
            r == self@.has_flag(name@, 'r'),
    {
        self.has_flag(name, 'r')
    }

    /// Refuses a write to a readonly parameter, and sets the exit status to
    /// 1 when it does.
    pub fn write_check(&mut self, name: &str) -> (r: Result<(), ExecError>)
        requires
            old(self).wf(),
        ensures
            final(self).wf(),
            crate::error::exec::outcome(r) == old(self)@.write_check(name@),
            r is Ok ==> final(self)@ == old(self)@,
            r is Err ==> final(self)@ == (DbView { exit_status: 1, ..old(self)@ }),
    {
        if self.is_readonly(name) {
            self.exit_status = 1;
            return Err(ExecError::ReadOnly(name.to_owned()));
        }
        Ok(())
    }

    /// What a restricted shell refuses.
    pub fn restricted_check(&self, name: &str, values: Option<&Vec<String>>) -> (r: Result<
        (),
        ExecError,
    >)
        requires
            self.wf(),
        ensures
            crate::error::exec::outcome(r) == self@.restricted_check(
                name@,
                match values {
                    Some(v) => Some(texts(v@)),
                    None => None,
                },
            ),
    {
        if !contains_char(self.flags.as_str(), 'r') {
            return Ok(());
        }
        if str_eq(name, "SHELL") || str_eq(name, "PATH") || str_eq(name, "ENV") || str_eq(
            name,
            "BASH_ENV",
        ) {
            return Err(ExecError::ReadOnly(name.to_owned()));
        }
        if str_eq(name, "BASH_CMDS") {
            if let Some(vs) = values {
                let mut i: usize = 0;
                while i < vs.len()
                    invariant
                        i <= vs.len(),
                        first_path_like(texts(vs@), 0) == first_path_like(texts(vs@), i as int),
                        self.flags@.contains('r'),
                        !is_fixed_when_restricted(name@),
                        name@ == "BASH_CMDS"@,
                        values == Some(vs),
                    decreases vs.len() - i,
                {
                    assert(texts(vs@)[i as int] == vs[i as int]@);
                    if contains_char(vs[i].as_str(), '/') {
                        return Err(ExecError::Restricted(vs[i].clone()));
                    }
                    i += 1;
                }
            }
        }
        Ok(())
    }

    /// The three checks before a write, in their order.
    pub fn checks(&mut self, name: &str, values: Option<&Vec<String>>) -> (r: Result<(), ExecError>)
        requires
            old(self).wf(),
        ensures
            final(self).wf(),
            crate::error::exec::outcome(r) == old(self)@.checks(
                name@,
                match values {
                    Some(v) => Some(texts(v@)),
                    None => None,
                },
            ),
            final(self)@ == old(self)@.checked(name@),
    {
        Self::name_check(name)?;
        self.write_check(name)?;
        self.restricted_check(name, values)
    }

    /// Whether a parameter called `name` exists.
    pub fn exist(&self, name: &str) -> (r: bool)
        requires
            self.wf(),
        ensures
            r == self@.exist(name@),
    {
        if let Ok(n) = parse_usize(name) {
            let layer = self.position_parameters.len() - 1;
            return n < self.position_parameters[layer].len();
        }
        self.get_layer_pos(name).is_some()
    }

    /// Whether `name` holds an indexed array.
    pub fn is_array(&self, name: &str) -> (r: bool)
        requires
            self.wf(),
        ensures
            r == self@.is_array(name@),
    {
        match self.get_ref(name) {
            Some(d) => d.is_array(),
            None => false,
        }
    }

    /// Whether `name` holds an associative array.
    pub fn is_assoc(&self, name: &str) -> (r: bool)
        requires
            self.wf(),
        ensures
            r == self@.is_assoc(name@),
    {
        match self.get_ref(name) {
            Some(d) => d.is_assoc(),
            None => false,
        }
    }

    /// Whether `name` holds a scalar.
    pub fn is_single(&self, name: &str) -> (r: bool)
        requires
            self.wf(),
        ensures
            r == self@.is_single(name@),
    {
        match self.get_ref(name) {
            Some(d) => d.is_single(),
            None => false,
        }
    }

    /// Whether `name` holds an integer scalar.
    pub fn is_single_num(&self, name: &str) -> (r: bool)
        requires
            self.wf(),
        ensures
            r == self@.is_single_num(name@),
    {
        match self.get_ref(name) {
            Some(d) => d.is_single_num(),
            None => false,
        }
    }

    /// Whether `key` addresses an element of `name`.
    pub fn has_key(&self, name: &str, key: &str) -> (r: Result<bool, ExecError>)
        requires
            self.wf(),
        ensures
            match r {
                Ok(b) => self@.has_key(name@, key@) == Ok::<bool, ExecErrorView>(b),
                Err(e) => self@.has_key(name@, key@) == Err::<bool, ExecErrorView>(e@),
            },
    {
        match self.get_ref(name) {
            Some(d) => d.has_key(key),
            None => Ok(false),
        }
    }
}

} // verus!
