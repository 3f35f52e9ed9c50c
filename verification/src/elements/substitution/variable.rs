//! Variable references: `name` or `name[subscript]`.

use vstd::prelude::*;
use crate::elements::substitution::subscript::{parsed_subscript, Subscript, SubscriptView};
use crate::error::exec::{ExecError, ExecErrorView};
use crate::error::parse::{ParseError, ParseErrorView};
use crate::feeder::{name_len, Feeder};
use crate::shell::database::data::assoc::{zero_key, zero_text};
use crate::shell::database::DbView;
use crate::shell::{ShellView, ShellCore};
use crate::utils::arg::{consume_option, excluding, has_option};
use crate::utils::text::{chars_of, str_eq, string_of_range, texts};

verus! {

/// A reference to a parameter or to one of its elements.
#[derive(Debug, PartialEq, Eq)]
pub struct Variable {
    /// The source text.
    pub text: String,
    pub name: String,
    pub index: Option<Subscript>,
    /// The line that the reference stands on.
    pub lineno: usize,
}

/// A reference as plain values.
pub struct VariableView {
    pub text: Seq<char>,
    pub name: Seq<char>,
    pub index: Option<SubscriptView>,
    pub lineno: usize,
}

/// Whether the character may stand in a subscript that counts as blank.
pub open spec fn is_blank_or_bracket(c: char) -> bool {
    c == ' ' || c == '\n' || c == '\t' || c == '[' || c == ']'
}

/// Whether the subscript holds nothing but blanks between its brackets.
pub open spec fn is_blank_subscript(text: Seq<char>) -> bool {
    forall|i: int| 0 <= i < text.len() ==> is_blank_or_bracket(#[trigger] text[i])
}

/// The text without its first and its last character.
pub open spec fn inner_text(text: Seq<char>) -> Seq<char> {
    if text.len() >= 2 {
        text.subrange(1, text.len() - 1)
    } else {
        Seq::empty()
    }
}

/// The reference that the text starts with, and its length: a name, then a
/// subscript where one follows. A text that starts with no name gives
/// nothing; a subscript that cannot be read is a failure.
pub open spec fn parsed_variable(s: Seq<char>, lineno: usize) -> Result<
    Option<(VariableView, int)>,
    ParseErrorView,
> {
    let n = name_len(s);
    if n <= 0 || n > s.len() {
        Ok(None)
    } else {
        match parsed_subscript(s.skip(n)) {
            Ok(Some((sub, m))) => Ok(
                Some(
                    (
                        VariableView { text: s.take(n + m), name: s.take(n), index: Some(sub), lineno },
                        n + m,
                    ),
                ),
            ),
            Ok(None) => Ok(
                Some((VariableView { text: s.take(n), name: s.take(n), index: None, lineno }, n)),
            ),
            Err(e) => Err(e),
        }
    }
}

impl View for Variable {
    type V = VariableView;

    open spec fn view(&self) -> VariableView {
        VariableView {
            text: self.text@,
            name: self.name@,
            index: match self.index {
                Some(s) => Some(s@),
                None => None,
            },
            lineno: self.lineno,
        }
    }
}

impl VariableView {
    /// Whether the name stands for the positional parameters.
    pub open spec fn is_pos_param_array(self) -> bool {
        self.name == "@"@ || self.name == "*"@
    }

    /// Whether the subscript asks for all elements.
    pub open spec fn is_var_array(self) -> bool {
        self.index matches Some(s) && (s.text == "[*]"@ || s.text == "[@]"@)
    }

    /// Whether the reference stands for all elements of something.
    pub open spec fn is_array(self) -> bool {
        self.is_pos_param_array() || self.is_var_array()
    }

    /// The shell and the index that a write goes to. With a subscript: its
    /// value, but for `[]`, which addresses nothing, and for blanks between
    /// the brackets, which are the key of an associative array as they
    /// stand and position `0` of anything else. Without one: position `0`
    /// of an indexed array, unless the write appends or brings an array;
    /// else none, and the write goes to the whole.
    pub open spec fn get_index(self, core: ShellView, right_is_array: bool, append: bool) -> (
        ShellView,
        Result<Option<Seq<char>>, ExecErrorView>,
    ) {
        match self.index {
            Some(s) => if s.text == "[]"@ {
                (core, Err(ExecErrorView::ArrayIndexInvalid(Seq::empty())))
            } else if is_blank_subscript(s.text) {
                if core.db.is_assoc(self.name) {
                    (core, Ok(Some(inner_text(s.text))))
                } else {
                    (core, Ok(Some(zero_key())))
                }
            } else {
                let (c, r) = s.eval(core, self.name);
                (
                    c,
                    match r {
                        Ok(i) => Ok(Some(i)),
                        Err(e) => Err(e),
                    },
                )
            },
            None => (
                core,
                Ok(
                    if core.db.is_array(self.name) && !append && !right_is_array {
                        Some(zero_key())
                    } else {
                        None
                    },
                ),
            ),
        }
    }

    /// The shell after the write of `value`: a scalar write without a
    /// subscript, else a write to the element that the subscript
    /// evaluates to.
    pub open spec fn set_value(self, core: ShellView, value: Seq<char>) -> (
        ShellView,
        Result<(), ExecErrorView>,
    ) {
        match self.index {
            None => {
                let (db, r) = core.db.set_param(self.name, value, None);
                (core.with_db(db), r)
            },
            Some(s) => {
                let (c, r) = s.eval(core, self.name);
                match r {
                    Err(e) => (c, Err(e)),
                    Ok(i) => {
                        let (db, r2) = c.db.set_param2(self.name, i, value, None);
                        (c.with_db(db), r2)
                    },
                }
            },
        }
    }

    /// Whether the reference names something that exists: an element where
    /// it has a subscript, element `0` of a container where it has none,
    /// else a parameter. A container without elements does not exist.
    pub open spec fn exist(self, core: ShellView) -> (ShellView, Result<bool, ExecErrorView>) {
        let db = core.db;
        let container = db.is_array(self.name) || db.is_assoc(self.name);
        if container && db.vec_from(self.name, 0, false).len() == 0 {
            (core, Ok(false))
        } else if container && self.index is None {
            (core, db.has_key(self.name, zero_key()))
        } else {
            match self.index {
                Some(s) => {
                    let (c, r) = s.eval(core, self.name);
                    match r {
                        Ok(i) => (c, c.db.has_key(self.name, i)),
                        Err(e) => (c, Err(e)),
                    }
                },
                None => (core, Ok(db.exist(self.name))),
            }
        }
    }

    /// Whether the parameter has a value that a declaration keeps: one in
    /// layer `layer`, or, without a layer, one anywhere.
    pub open spec fn has_previous(self, db: DbView, layer: Option<usize>) -> bool {
        match layer {
            None => db.exist(self.name),
            Some(l) => db.params[l as int].contains_key(self.name),
        }
    }

    /// The store, the arguments that are left and the outcome of a
    /// declaration with the options `-a`, `-A` and `-i` among `args`. The
    /// scalar value that the parameter had goes to element `0` of the array
    /// that it becomes.
    pub open spec fn init_variable(self, db: DbView, layer: Option<usize>, args: Seq<Seq<char>>) -> (
        DbView,
        Seq<Seq<char>>,
        Result<(), ExecErrorView>,
    ) {
        let prev = if self.has_previous(db, layer) {
            match db.get_param(self.name) {
                Ok(v) => Ok(Some(v)),
                Err(e) => Err(e),
            }
        } else {
            Ok(None)
        };
        match prev {
            Err(e) => (db, args, Err(e)),
            Ok(prev) => {
                let i_opt = args.contains("-i"@);
                let args1 = excluding(args, "-i"@);
                let a_opt = args1.contains("-a"@);
                let args2 = excluding(args1, "-a"@);
                if a_opt || (!args2.contains("-A"@) && self.index is Some) {
                    let values = match prev {
                        Some(p) => Some(seq![p]),
                        None => None,
                    };
                    let (d, r) = if i_opt {
                        db.set_int_array(self.name, values, layer)
                    } else {
                        db.set_array(self.name, values, layer)
                    };
                    (d, args2, r)
                } else if args2.contains("-A"@) {
                    let args3 = excluding(args2, "-A"@);
                    let (d, r) = if i_opt {
                        db.set_int_assoc(self.name, layer)
                    } else {
                        db.set_assoc(self.name, layer, false)
                    };
                    match r {
                        Err(e) => (d, args3, Err(e)),
                        Ok(()) => match prev {
                            Some(p) => {
                                let (d2, r2) = d.set_assoc_elem(self.name, zero_key(), p, layer);
                                (d2, args3, r2)
                            },
                            None => (d, args3, Ok(())),
                        },
                    }
                } else {
                    let value = match prev {
                        Some(p) => p,
                        None => Seq::empty(),
                    };
                    let (d, r) = if i_opt {
                        db.init_as_num(self.name, value, layer)
                    } else {
                        db.set_param(self.name, value, layer)
                    };
                    (d, excluding(args2, "-A"@), r)
                }
            },
        }
    }
}

/// The length of the subscript that was read; 0 where none was.
pub open spec fn subscript_len(r: Result<Option<(SubscriptView, int)>, ParseErrorView>) -> int {
    match r {
        Ok(Some((_, n))) => n,
        _ => 0,
    }
}

/// Whether every character of the text is a blank or a bracket.
fn blank_subscript(text: &str) -> (r: bool)
    ensures
        r == is_blank_subscript(text@),
{
    let v = chars_of(text);
    let mut i: usize = 0;
    while i < v.len()
        invariant
            i <= v.len(),
            v@ == text@,
            forall|j: int| 0 <= j < i ==> is_blank_or_bracket(#[trigger] v@[j]),
        decreases v.len() - i,
    {
        let c = v[i];
        if !(c == ' ' || c == '\n' || c == '\t' || c == '[' || c == ']') {
            return false;
        }
        i += 1;
    }
    true
}

/// The text without its first and its last character.
fn strip_ends(text: &str) -> (r: String)
    ensures
        r@ == inner_text(text@),
{
    let v = chars_of(text);
    if v.len() >= 2 {
        string_of_range(&v, 1, v.len() - 1)
    } else {
        String::new()
    }
}

impl Variable {
    /// The index that a write through this reference goes to.
    pub fn get_index(&self, core: &mut ShellCore, right_is_array: bool, append: bool) -> (r: Result<
        Option<String>,
        ExecError,
    >)
        requires
            old(core).wf(),
        ensures
            final(core).wf(),
            final(core)@ == self@.get_index(old(core)@, right_is_array, append).0,
            match r {
                Ok(Some(i)) => self@.get_index(old(core)@, right_is_array, append).1 == Ok::<
                    Option<Seq<char>>,
                    ExecErrorView,
                >(Some(i@)),
                Ok(None) => self@.get_index(old(core)@, right_is_array, append).1 == Ok::<
                    Option<Seq<char>>,
                    ExecErrorView,
                >(None),
                Err(e) => self@.get_index(old(core)@, right_is_array, append).1 == Err::<
                    Option<Seq<char>>,
                    ExecErrorView,
                >(e@),
            },
    {
        if let Some(s) = &self.index {
            if str_eq(s.text.as_str(), "[]") {
                return Err(ExecError::ArrayIndexInvalid(String::new()));
            }
            if blank_subscript(s.text.as_str()) {
                if core.db.is_assoc(self.name.as_str()) {
                    return Ok(Some(strip_ends(s.text.as_str())));
                }
                return Ok(Some(zero_text().to_owned()));
            }
            let index = s.eval(core, self.name.as_str())?;
            return Ok(Some(index));
        }
        if core.db.is_array(self.name.as_str()) && !append && !right_is_array {
            Ok(Some(zero_text().to_owned()))
        } else {
            Ok(None)
        }
    }

    /// Whether the reference stands for all elements of something.
    pub fn is_array(&self) -> (r: bool)
        ensures
            r == self@.is_array(),
    {
        self.is_pos_param_array() || self.is_var_array()
    }

    /// Whether the name stands for the positional parameters.
    pub fn is_pos_param_array(&self) -> (r: bool)
        ensures
            r == self@.is_pos_param_array(),
    {
        str_eq(self.name.as_str(), "@") || str_eq(self.name.as_str(), "*")
    }

    /// Whether the subscript asks for all elements.
    pub fn is_var_array(&self) -> (r: bool)
        ensures
            r == self@.is_var_array(),
    {
        match &self.index {
            None => false,
            Some(s) => str_eq(s.text.as_str(), "[*]") || str_eq(s.text.as_str(), "[@]"),
        }
    }

    /// Writes `value` through the reference.
    pub fn set_value(&self, value: &str, core: &mut ShellCore) -> (r: Result<(), ExecError>)
        requires
            old(core).wf(),
        ensures
            final(core).wf(),
            final(core)@ == self@.set_value(old(core)@, value@).0,
            crate::error::exec::outcome(r) == self@.set_value(old(core)@, value@).1,
    {
        match &self.index {
            None => core.db.set_param(self.name.as_str(), value, None),
            Some(s) => {
                let index = s.eval(core, self.name.as_str())?;
                core.db.set_param2(self.name.as_str(), index.as_str(), value, None)
            },
        }
    }

    /// Reads `arg` as a reference and writes `value` through it. A text
    /// that is no reference, or goes on after one, is refused as a name; one
    /// whose subscript cannot be read fails as the subscript did.
    pub fn parse_and_set(arg: &str, value: &str, core: &mut ShellCore) -> (r: Result<(), ExecError>)
        requires
            old(core).wf(),
        ensures
            final(core).wf(),
            match parsed_variable(arg@, 1) {
                Ok(Some((v, n))) => if n == arg@.len() {
                    final(core)@ == v.set_value(old(core)@, value@).0 && crate::error::exec::outcome(r)
                        == v.set_value(old(core)@, value@).1
                } else {
                    final(core)@ == old(core)@ && crate::error::exec::outcome(r) == Err::<
                        (),
                        ExecErrorView,
                    >(ExecErrorView::InvalidName(arg@))
                },
                Ok(None) => final(core)@ == old(core)@ && crate::error::exec::outcome(r) == Err::<
                    (),
                    ExecErrorView,
                >(ExecErrorView::InvalidName(arg@)),
                Err(e) => final(core)@ == old(core)@ && crate::error::exec::outcome(r) == Err::<
                    (),
                    ExecErrorView,
                >(ExecErrorView::ParseError(e)),
            },
    {
        let mut f = Feeder::new(arg);
        match Self::parse(&mut f) {
            Ok(Some(v)) => {
                if !f.is_empty() {
                    return Err(ExecError::InvalidName(arg.to_owned()));
                }
                v.set_value(value, core)
            },
            Ok(None) => Err(ExecError::InvalidName(arg.to_owned())),
            Err(e) => Err(ExecError::ParseError(e)),
        }
    }

    /// Declares the parameter with the options `-a`, `-A` and `-i` among
    /// `args`, which are taken out of `args` as they are read.
    pub fn init_variable(&self, core: &mut ShellCore, layer: Option<usize>, args: &mut Vec<String>) -> (r:
        Result<(), ExecError>)
        requires
            old(core).wf(),
            layer matches Some(l) ==> l < old(core).db.params.len(),
        ensures
            final(core).wf(),
            final(core)@ == old(core)@.with_db(
                self@.init_variable(old(core)@.db, layer, texts(old(args)@)).0,
            ),
            texts(final(args)@) == self@.init_variable(old(core)@.db, layer, texts(old(args)@)).1,
            crate::error::exec::outcome(r) == self@.init_variable(
                old(core)@.db,
                layer,
                texts(old(args)@),
            ).2,
    {
        let name = self.name.as_str();
        let has_prev = match layer {
            None => core.db.exist(name),
            Some(l) => {
                proof {
                    assert(crate::shell::database::data::layer_wf(core.db.params[l as int]));
                }
                crate::shell::database::data::table_get(&core.db.params[l], name).is_some()
            },
        };
        let mut prev: Option<String> = None;
        if has_prev {
            prev = Some(core.db.get_param(name)?);
        }
        let i_opt = consume_option("-i", args);
        if consume_option("-a", args) || (!has_option("-A", args) && self.index.is_some()) {
            let values: Option<Vec<String>> = match prev {
                Some(p) => {
                    let mut v: Vec<String> = Vec::new();
                    v.push(p);
                    assert(texts(v@) =~= seq![p@]);
                    Some(v)
                },
                None => None,
            };
            return if i_opt {
                core.db.set_int_array(name, values, layer)
            } else {
                core.db.set_array(name, values, layer)
            };
        } else if consume_option("-A", args) {
            if i_opt {
                core.db.set_int_assoc(name, layer)?;
            } else {
                core.db.set_assoc(name, layer, false)?;
            }
            if let Some(p) = prev {
                core.db.set_assoc_elem(name, zero_text(), p.as_str(), layer)?;
            }
            return Ok(());
        }
        let value = match prev {
            Some(p) => p,
            None => String::new(),
        };
        if i_opt {
            core.db.init_as_num(name, value.as_str(), layer)
        } else {
            core.db.set_param(name, value.as_str(), layer)
        }
    }

    /// Whether the reference names something that exists.
    pub fn exist(&self, core: &mut ShellCore) -> (r: Result<bool, ExecError>)
        requires
            old(core).wf(),
        ensures
            final(core).wf(),
            final(core)@ == self@.exist(old(core)@).0,
            match r {
                Ok(b) => self@.exist(old(core)@).1 == Ok::<bool, ExecErrorView>(b),
                Err(e) => self@.exist(old(core)@).1 == Err::<bool, ExecErrorView>(e@),
            },
    {
        let name = self.name.as_str();
        if core.db.is_array(name) || core.db.is_assoc(name) {
            let all = core.db.get_vec(name, false)?;
            assert(texts(all@).len() == all.len());
            if all.len() == 0 {
                return Ok(false);
            }
            if self.index.is_none() {
                return core.db.has_key(name, zero_text());
            }
        }
        if let Some(sub) = &self.index {
            let index = sub.eval(core, name)?;
            return core.db.has_key(name, index.as_str());
        }
        Ok(core.db.exist(name))
    }

    /// Reads the reference that the text starts with: a name, then a
    /// subscript where one follows. Where the text starts with no name, or
    /// the subscript cannot be read, nothing is consumed.
    pub fn parse(feeder: &mut Feeder) -> (r: Result<Option<Self>, ParseError>)
        requires
            old(feeder).wf(),
        ensures
            final(feeder).wf(),
            match r {
                Ok(Some(v)) => parsed_variable(old(feeder)@, old(feeder).lineno) matches Ok(
                    Some((w, n)),
                ) && v@ == w && 0 <= n <= old(feeder)@.len() && final(feeder)@ == old(feeder)@.skip(n),
                Ok(None) => parsed_variable(old(feeder)@, old(feeder).lineno) == Ok::<
                    Option<(VariableView, int)>,
                    ParseErrorView,
                >(None) && final(feeder)@ == old(feeder)@,
                Err(e) => parsed_variable(old(feeder)@, old(feeder).lineno) == Err::<
                    Option<(VariableView, int)>,
                    ParseErrorView,
                >(e@) && final(feeder)@ == old(feeder)@,
            },
    {
        let ghost s0 = feeder@;
        let start = feeder.pos;
        let len = feeder.scanner_name();
        if len == 0 {
            return Ok(None);
        }
        let lineno = feeder.lineno;
        let name = feeder.consume(len);
        let mut text = name.clone();
        let mut index: Option<Subscript> = None;
        match Subscript::parse(feeder) {
            Ok(Some(s)) => {
                text.append(s.text.as_str());
                proof {
                    let m = subscript_len(parsed_subscript(s0.skip(len as int)));
                    assert(text@ =~= s0.take(len + m));
                    assert(feeder@ =~= s0.skip(len + m));
                }
                index = Some(s);
            },
            Ok(None) => {},
            Err(e) => {
                feeder.rewind(start);
                return Err(e);
            },
        }
        Ok(Some(Variable { text, name, index, lineno }))
    }
}

} // verus!
