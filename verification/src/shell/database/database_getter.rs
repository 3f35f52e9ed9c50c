//! What the store answers when a parameter is read.

use vstd::prelude::*;
use crate::error::exec::{ExecError, ExecErrorView};
use crate::shell::database::data::DataView;
use crate::shell::database::database_checker::name_check_spec;
use crate::shell::database::{DataBase, DbView};
use crate::utils::number::{int_to_string, numeral_of, parse_position_spec, parse_usize};
use crate::utils::text::{clone_strings, join, joined, str_eq, texts};

verus! {

/// The first character of a text as a text; empty for an empty text.
pub open spec fn head_of(s: Seq<char>) -> Seq<char> {
    if s.len() == 0 {
        s
    } else {
        seq![s[0]]
    }
}

/// The scalar reading of a value, empty where it has none.
pub open spec fn scalar_or_empty(d: DataView) -> Seq<char> {
    match d.get_as_single() {
        Ok(s) => s,
        Err(_) => Seq::empty(),
    }
}

impl DbView {
    /// The positional parameters of the innermost level.
    pub open spec fn top_positional(self) -> Seq<Seq<char>> {
        self.positional.last()
    }

    /// The arguments: the positional parameters from 1 on.
    pub open spec fn args(self) -> Seq<Seq<char>> {
        if self.top_positional().len() > 0 {
            self.top_positional().skip(1)
        } else {
            Seq::empty()
        }
    }

    /// What a variable reads as: the scalar reading of what it holds in the
    /// innermost layer that has it, else what the environment holds under
    /// its name, else nothing.
    pub open spec fn variable(self, name: Seq<char>) -> Seq<char> {
        match self.data(name) {
            Some(d) => scalar_or_empty(d),
            None => if self.environ.contains_key(name) {
                self.environ[name]
            } else {
                Seq::empty()
            },
        }
    }

    /// The separator that joins the arguments for `*`: the first character
    /// of `IFS`.
    pub open spec fn ifs_head(self) -> Seq<char> {
        head_of(self.variable("IFS"@))
    }

    /// Whether a read of `name` is answered from the shell's own state, not
    /// from the tables.
    pub open spec fn is_computed(name: Seq<char>) -> bool {
        name == "-"@ || name == "?"@ || name == "_"@ || name == "#"@ || name == "@"@ || name == "*"@
            || parse_position_spec(name) is Ok
    }

    /// The scalar reading of `name`: the shell's flags for `-`, the exit
    /// status for `?`, the last argument for `_`, the number of arguments
    /// for `#`, the arguments joined for `@` and `*`, the positional
    /// parameter for a position, else the variable.
    pub open spec fn get_param(self, name: Seq<char>) -> Result<Seq<char>, ExecErrorView> {
        if name_check_spec(name) is Err {
            Err(ExecErrorView::InvalidName(name))
        } else if name == "-"@ {
            Ok(self.flags)
        } else if name == "?"@ {
            Ok(numeral_of(self.exit_status as int))
        } else if name == "_"@ {
            Ok(self.last_arg)
        } else if name == "#"@ {
            Ok(numeral_of(self.args().len() as int))
        } else if name == "@"@ {
            Ok(joined(self.args(), " "@))
        } else if name == "*"@ {
            Ok(joined(self.args(), self.ifs_head()))
        } else {
            match parse_position_spec(name) {
                Ok(n) => Ok(
                    if n < self.top_positional().len() {
                        self.top_positional()[n]
                    } else {
                        Seq::empty()
                    },
                ),
                Err(_) => Ok(self.variable(name)),
            }
        }
    }

    /// The reading of the element of `name` that `pos` addresses.
    pub open spec fn get_elem(self, name: Seq<char>, pos: Seq<char>) -> Result<Seq<char>, ExecErrorView> {
        if name_check_spec(name) is Err {
            Err(ExecErrorView::InvalidName(name))
        } else {
            match self.data(name) {
                Some(d) => d.get_elem(pos, self.ifs_head()),
                None => Ok(Seq::empty()),
            }
        }
    }

    /// The elements of `name` from position `pos` on; the arguments for `@`.
    pub open spec fn vec_from(self, name: Seq<char>, pos: int, skip: bool) -> Seq<Seq<char>> {
        if name == "@"@ {
            if pos <= self.args().len() {
                self.args().skip(pos)
            } else {
                Seq::empty()
            }
        } else {
            match self.data(name) {
                Some(d) => d.vec_from(pos, skip),
                None => Seq::empty(),
            }
        }
    }

    /// One more than the largest position of the indexed array `name`.
    pub open spec fn index_based_len(self, name: Seq<char>) -> int {
        match self.data(name) {
            Some(d) => d.index_based_len(),
            None => 0,
        }
    }

    /// The subscripts of the elements of `name`.
    pub open spec fn indexes(self, name: Seq<char>) -> Seq<Seq<char>> {
        match self.data(name) {
            Some(d) => d.keys(),
            None => Seq::empty(),
        }
    }
}

impl DataBase {
    /// The arguments: the positional parameters of the innermost level from
    /// 1 on.
    pub fn get_position_params(&self) -> (r: Vec<String>)
        requires
            self.wf(),
        ensures
            texts(r@) == self@.args(),
    {
        let level = self.position_parameters.len() - 1;
        let mut all = clone_strings(&self.position_parameters[level]);
        if all.len() > 0 {
            let rest = all.split_off(1);
            assert(texts(rest@) =~= self@.args());
            rest
        } else {
            assert(texts(all@) =~= self@.args());
            all
        }
    }

    /// What a variable reads as.
    pub fn get_variable(&self, name: &str) -> (r: String)
        requires
            self.wf(),
        ensures
            r@ == self@.variable(name@),
    {
        match self.get_ref(name) {
            Some(d) => match d.get_as_single() {
                Ok(s) => s,
                Err(_) => String::new(),
            },
            None => match self.env_get(name) {
                Some(v) => v,
                None => String::new(),
            },
        }
    }

    /// The first character of `IFS`.
    pub fn get_ifs_head(&self) -> (r: String)
        requires
            self.wf(),
        ensures
            r@ == self@.ifs_head(),
    {
        let ifs = self.get_variable("IFS");
        let mut head = String::new();
        if ifs.as_str().unicode_len() > 0 {
            head.push(ifs.as_str().get_char(0));
            assert(head@ =~= seq![ifs@[0]]);
        }
        head
    }

    /// The scalar reading of `name`.
    pub fn get_param(&self, name: &str) -> (r: Result<String, ExecError>)
        requires
            self.wf(),
        ensures
            match r {
                Ok(s) => self@.get_param(name@) == Ok::<Seq<char>, ExecErrorView>(s@),
                Err(e) => self@.get_param(name@) == Err::<Seq<char>, ExecErrorView>(e@),
            },
    {
        Self::name_check(name)?;
        if str_eq(name, "-") {
            return Ok(self.flags.clone());
        }
        if str_eq(name, "?") {
            return Ok(int_to_string(self.exit_status as i128));
        }
        if str_eq(name, "_") {
            return Ok(self.last_arg.clone());
        }
        if str_eq(name, "#") {
            let args = self.get_position_params();
            assert(texts(args@).len() == args.len());
            return Ok(int_to_string(args.len() as i128));
        }
        if str_eq(name, "@") {
            let args = self.get_position_params();
            return Ok(join(&args, " "));
        }
        if str_eq(name, "*") {
            let args = self.get_position_params();
            let ifs = self.get_ifs_head();
            return Ok(join(&args, ifs.as_str()));
        }
        if let Ok(n) = parse_usize(name) {
            let level = self.position_parameters.len() - 1;
            if n < self.position_parameters[level].len() {
                assert(texts(self.position_parameters[level as int]@)[n as int]
                    == self.position_parameters[level as int][n as int]@);
                return Ok(self.position_parameters[level][n].clone());
            }
            return Ok(String::new());
        }
        Ok(self.get_variable(name))
    }

    /// The reading of the element of `name` that `pos` addresses.
    pub fn get_elem(&self, name: &str, pos: &str) -> (r: Result<String, ExecError>)
        requires
            self.wf(),
        ensures
            match r {
                Ok(s) => self@.get_elem(name@, pos@) == Ok::<Seq<char>, ExecErrorView>(s@),
                Err(e) => self@.get_elem(name@, pos@) == Err::<Seq<char>, ExecErrorView>(e@),
            },
    {
        Self::name_check(name)?;
        match self.get_ref(name) {
            Some(d) => {
                let ifs = self.get_ifs_head();
                d.get_elem(pos, ifs.as_str())
            },
            None => Ok(String::new()),
        }
    }

    /// The elements of `name` from position `pos` on; the arguments for `@`.
    pub fn get_vec_from(&self, name: &str, pos: usize, flatten: bool) -> (r: Result<
        Vec<String>,
        ExecError,
    >)
        requires
            self.wf(),
        ensures
            r matches Ok(v) && texts(v@) == self@.vec_from(name@, pos as int, flatten),
    {
        if str_eq(name, "@") {
            let mut args = self.get_position_params();
            assert(texts(args@).len() == args.len());
            if pos <= args.len() {
                let rest = args.split_off(pos);
                assert(texts(rest@) =~= self@.args().skip(pos as int));
                return Ok(rest);
            }
            let none: Vec<String> = Vec::new();
            assert(texts(none@) =~= Seq::<Seq<char>>::empty());
            return Ok(none);
        }
        match self.get_ref(name) {
            Some(d) => Ok(d.get_vec_from(pos, flatten)),
            None => {
                let none: Vec<String> = Vec::new();
                assert(texts(none@) =~= Seq::<Seq<char>>::empty());
                Ok(none)
            },
        }
    }

    /// All elements of `name`; the arguments for `@`.
    pub fn get_vec(&self, name: &str, flatten: bool) -> (r: Result<Vec<String>, ExecError>)
        requires
            self.wf(),
        ensures
            r matches Ok(v) && texts(v@) == self@.vec_from(name@, 0, flatten),
    {
        self.get_vec_from(name, 0, flatten)
    }

    /// One more than the largest position of the indexed array `name`; 0
    /// for anything else.
    pub fn index_based_len(&self, name: &str) -> (n: usize)
        requires
            self.wf(),
        ensures
            n == self@.index_based_len(name@),
    {
        match self.get_ref(name) {
            Some(d) => d.index_based_len(),
            None => 0,
        }
    }

    /// The subscripts of the elements of `name`, in the order of
    /// enumeration.
    pub fn get_indexes_all(&self, name: &str) -> (r: Vec<String>)
        requires
            self.wf(),
        ensures
            texts(r@) == self@.indexes(name@),
    {
        match self.get_ref(name) {
            Some(d) => d.get_all_indexes_as_array(),
            None => {
                let none: Vec<String> = Vec::new();
                assert(texts(none@) =~= Seq::<Seq<char>>::empty());
                none
            },
        }
    }
}

impl DbView {
    /// The line that shows what `name` stands for: the variable with its
    /// value, else the source of the function, else nothing.
    pub open spec fn print(self, name: Seq<char>) -> Option<Seq<char>> {
        match self.data(name) {
            Some(d) => Some(d.print_with_name(name)),
            None => if self.functions.contains_key(name) {
                Some(self.functions[name])
            } else {
                None
            },
        }
    }
}

impl DbView {
    /// The declaration that makes `name` what it is: that of the variable,
    /// else the source of the function, else nothing.
    pub open spec fn declare_print(self, name: Seq<char>) -> Option<Seq<char>> {
        match self.data(name) {
            Some(d) => Some(d.declare_text(name)),
            None => if self.functions.contains_key(name) {
                Some(self.functions[name])
            } else {
                None
            },
        }
    }
}

impl DataBase {
    /// The line that shows what `name` stands for, for the caller to print.
    pub fn print(&self, name: &str) -> (r: Option<String>)
        requires
            self.wf(),
        ensures
            match r {
                Some(line) => self@.print(name@) == Some(line@),
                None => self@.print(name@) is None,
            },
    {
        if let Some(d) = self.get_ref(name) {
            return Some(d.print_with_name(name));
        }
        match self.functions.get(name) {
            Some(f) => Some(f.clone()),
            None => None,
        }
    }

    /// The line that `declare -p` shows for `name`, for the caller to
    /// print.
    pub fn declare_print(&self, name: &str) -> (r: Option<String>)
        requires
            self.wf(),
        ensures
            match r {
                Some(line) => self@.declare_print(name@) == Some(line@),
                None => self@.declare_print(name@) is None,
            },
    {
        if let Some(d) = self.get_ref(name) {
            return Some(d.declare_text(name));
        }
        match self.functions.get(name) {
            Some(f) => Some(f.clone()),
            None => None,
        }
    }
}

} // verus!
