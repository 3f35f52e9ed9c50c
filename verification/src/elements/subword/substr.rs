//! The substring operation `${name:offset:length}`: a range of the
//! characters of a text, of the elements of an array, or of the positional
//! parameters.

use vstd::prelude::*;
use crate::elements::expr::arithmetic::parser::ch;
use crate::elements::expr::arithmetic::{parsed_expr, ArithmeticExpr, ArithmeticExprView};
use crate::elements::substitution::subscript::consumed;
use crate::elements::substitution::variable::Variable;
use crate::error::arith::{ArithError, ArithErrorView};
use crate::error::exec::{ExecError, ExecErrorView};
use crate::feeder::Feeder;
use crate::shell::{ShellView, ShellCore};
use crate::utils::text::{chars_of, join, joined, str_eq, string_of_range, texts};

verus! {

/// A substring operation: an offset and, where given, a length.
#[derive(Debug, PartialEq, Eq)]
pub struct Substr {
    /// The source text.
    pub text: String,
    pub offset: Option<ArithmeticExpr>,
    pub length: Option<ArithmeticExpr>,
}

/// A substring operation as plain values.
pub struct SubstrView {
    pub text: Seq<char>,
    pub offset: Option<ArithmeticExprView>,
    pub length: Option<ArithmeticExprView>,
}

/// What a substring operation leaves behind: the shell, the elements, the
/// text, and whether it went through.
pub struct Cut {
    pub core: ShellView,
    pub array: Seq<Seq<char>>,
    pub text: Seq<char>,
    pub result: Result<(), ExecErrorView>,
}

/// The view of an expression that may be missing.
pub open spec fn expr_view(e: Option<ArithmeticExpr>) -> Option<ArithmeticExprView> {
    match e {
        Some(a) => Some(a@),
        None => None,
    }
}

/// The part of `s` from `start` on; nothing where `start` lies beyond it.
pub open spec fn tail_from<T>(s: Seq<T>, start: int) -> Seq<T> {
    if 0 <= start <= s.len() {
        s.skip(start)
    } else {
        Seq::empty()
    }
}

/// The first `n` items of `s`; all of them where there are fewer, none
/// where `n` is below 1.
pub open spec fn head_of_len<T>(s: Seq<T>, n: int) -> Seq<T> {
    if n <= 0 {
        Seq::empty()
    } else if n >= s.len() {
        s
    } else {
        s.take(n)
    }
}

/// The failure of an operation that lacks its offset or its length.
pub open spec fn bad_substitution() -> ExecErrorView {
    ExecErrorView::BadSubstitution(Seq::empty())
}

/// The operation that the text starts with, and its length: `:`, an offset,
/// and, after another `:`, a length.
pub open spec fn parsed_substr(s: Seq<char>) -> Option<(SubstrView, int)> {
    if ch(s, 0) != ':' {
        None
    } else {
        match parsed_expr(s.skip(1)) {
            None => Some((SubstrView { text: s.take(1), offset: None, length: None }, 1)),
            Some((off, n)) => if ch(s, n + 1) != ':' {
                Some((SubstrView { text: s.take(n + 1), offset: Some(off), length: None }, n + 1))
            } else {
                match parsed_expr(s.skip(n + 2)) {
                    None => Some(
                        (SubstrView { text: s.take(n + 2), offset: Some(off), length: None }, n + 2),
                    ),
                    Some((len, m)) => Some(
                        (
                            SubstrView { text: s.take(n + 2 + m), offset: Some(off), length: Some(len) },
                            n + 2 + m,
                        ),
                    ),
                }
            },
        }
    }
}

impl View for Substr {
    type V = SubstrView;

    open spec fn view(&self) -> SubstrView {
        SubstrView {
            text: self.text@,
            offset: expr_view(self.offset),
            length: expr_view(self.length),
        }
    }
}

impl SubstrView {
    /// The shell and the first characters of `text` that the length keeps.
    pub open spec fn length_of(self, core: ShellView, text: Seq<char>) -> (
        ShellView,
        Result<Seq<char>, ExecErrorView>,
    ) {
        let (db, r) = self.length->0.eval_as_int(core.db);
        (
            core.with_db(db),
            match r {
                Ok(n) => Ok(head_of_len(text, n as int)),
                Err(e) => Err(e),
            },
        )
    }

    /// The shell and the range of the characters of `text`: from the
    /// offset, counted back from the end where it is negative, as many as
    /// the length says, or all that follow. An offset before the start of
    /// the text gives nothing.
    pub open spec fn get(self, core: ShellView, text: Seq<char>) -> (
        ShellView,
        Result<Seq<char>, ExecErrorView>,
    ) {
        let offset = self.offset->0;
        if offset.text.len() == 0 {
            (
                core,
                Err(
                    ExecErrorView::ArithError(
                        Seq::empty(),
                        ArithErrorView::OperandExpected(Seq::empty()),
                    ),
                ),
            )
        } else {
            let (db, r) = offset.eval_as_int(core.db);
            let c = core.with_db(db);
            match r {
                Err(e) => (c, Err(e)),
                Ok(n) => {
                    let start = if n < 0 {
                        n + text.len()
                    } else {
                        n as int
                    };
                    if start < 0 {
                        (c, Ok(Seq::empty()))
                    } else if self.length is Some {
                        self.length_of(c, tail_from(text, start))
                    } else {
                        (c, Ok(tail_from(text, start)))
                    }
                },
            }
        }
    }

    /// What the length makes of the elements `array`: the first ones, as
    /// many as it says, joined by a space. A length below zero is refused.
    pub open spec fn cut_length(self, core: ShellView, array: Seq<Seq<char>>, text: Seq<char>) -> Cut {
        let length = self.length->0;
        if length.text.len() == 0 {
            Cut { core, array, text, result: Err(bad_substitution()) }
        } else {
            let (db, r) = length.eval_as_int(core.db);
            let c = core.with_db(db);
            match r {
                Err(e) => Cut { core: c, array, text, result: Err(e) },
                Ok(n) => if n < 0 {
                    Cut { core: c, array, text, result: Err(ExecErrorView::SubstringMinus(n)) }
                } else {
                    let kept = head_of_len(array, n as int);
                    Cut { core: c, array: kept, text: joined(kept, seq![' ']), result: Ok(()) }
                },
            }
        }
    }

    /// The range of the arguments: from the offset, counted back from their
    /// number where it is negative, as many as the length says, or all that
    /// follow, joined by `ifs`.
    pub open spec fn partial_position_params(
        self,
        core: ShellView,
        array: Seq<Seq<char>>,
        text: Seq<char>,
        ifs: Seq<char>,
    ) -> Cut {
        let offset = self.offset->0;
        if offset.text.len() == 0 {
            Cut { core, array, text, result: Err(bad_substitution()) }
        } else {
            let args = core.db.args();
            let (db, r) = offset.eval_as_int(core.db);
            let c = core.with_db(db);
            match r {
                Err(e) => Cut { core: c, array: args, text, result: Err(e) },
                Ok(n) => {
                    let start = if n < 0 {
                        n + args.len()
                    } else {
                        n as int
                    };
                    if start < 0 {
                        Cut { core: c, array: Seq::empty(), text: Seq::empty(), result: Ok(()) }
                    } else {
                        let rest = tail_from(args, start);
                        if self.length is None {
                            Cut { core: c, array: rest, text: joined(rest, ifs), result: Ok(()) }
                        } else {
                            self.cut_length(c, rest, text)
                        }
                    }
                },
            }
        }
    }

    /// The range of the elements of the array `name`: from the position
    /// that the offset gives, counted back from the end of the array where
    /// it is negative, as many elements as the length says, or all that
    /// follow, joined by a space. A position beyond the machine's range
    /// selects nothing.
    pub open spec fn partial_array(
        self,
        core: ShellView,
        name: Seq<char>,
        array: Seq<Seq<char>>,
        text: Seq<char>,
    ) -> Cut {
        let offset = self.offset->0;
        if offset.text.len() == 0 {
            Cut { core, array, text, result: Err(bad_substitution()) }
        } else {
            let (db, r) = offset.eval_as_int(core.db);
            let c = core.with_db(db);
            match r {
                Err(e) => Cut { core: c, array, text, result: Err(e) },
                Ok(n) => {
                    let start = if n < 0 {
                        n + c.db.index_based_len(name)
                    } else {
                        n as int
                    };
                    if start < 0 {
                        Cut { core: c, array: Seq::empty(), text: Seq::empty(), result: Ok(()) }
                    } else {
                        let rest = if start > usize::MAX {
                            Seq::empty()
                        } else {
                            c.db.vec_from(name, start, true)
                        };
                        if self.length is None {
                            Cut { core: c, array: rest, text: joined(rest, seq![' ']), result: Ok(()) }
                        } else {
                            self.cut_length(c, rest, text)
                        }
                    }
                },
            }
        }
    }

    /// The range of what `name` stands for: of the arguments for `@` and
    /// `*`, else of the elements of the array.
    pub open spec fn cut(self, core: ShellView, name: Seq<char>, array: Seq<Seq<char>>, text: Seq<char>) -> Cut {
        if name == "@"@ {
            self.partial_position_params(core, array, text, seq![' '])
        } else if name == "*"@ {
            self.partial_position_params(core, array, text, core.db.ifs_head())
        } else {
            self.partial_array(core, name, array, text)
        }
    }
}

/// The characters of `v` from `start` on.
fn chars_from(v: &Vec<char>, start: i128) -> (r: String)
    requires
        start >= 0,
    ensures
        r@ == tail_from(v@, start as int),
{
    if start <= v.len() as i128 {
        let r = string_of_range(v, start as usize, v.len());
        assert(r@ =~= v@.skip(start as int));
        r
    } else {
        String::new()
    }
}

/// The first `n` strings of `v`.
fn keep_first(v: &mut Vec<String>, n: i128)
    ensures
        texts(final(v)@) == head_of_len(texts(old(v)@), n as int),
{
    let ghost before = texts(v@);
    if n <= 0 {
        v.truncate(0);
        assert(texts(v@) =~= Seq::<Seq<char>>::empty());
    } else if n < v.len() as i128 {
        v.truncate(n as usize);
        assert(texts(v@) =~= before.take(n as int));
    }
}

impl Substr {
    /// The first characters of `text`, as many as the length says.
    fn length(&self, text: &str, core: &mut ShellCore) -> (r: Result<String, ExecError>)
        requires
            old(core).wf(),
            self.length is Some,
        ensures
            final(core).wf(),
            final(core)@ == self@.length_of(old(core)@, text@).0,
            match r {
                Ok(s) => self@.length_of(old(core)@, text@).1 == Ok::<Seq<char>, ExecErrorView>(s@),
                Err(e) => self@.length_of(old(core)@, text@).1 == Err::<Seq<char>, ExecErrorView>(e@),
            },
    {
        let n = match &self.length {
            Some(l) => l.eval_as_int(core)?,
            None => 0,
        };
        let v = chars_of(text);
        if n <= 0 {
            Ok(String::new())
        } else if n >= v.len() as i128 {
            Ok(text.to_owned())
        } else {
            let r = string_of_range(&v, 0, n as usize);
            assert(r@ =~= text@.take(n as int));
            Ok(r)
        }
    }

    /// The range of the characters of `text` that the operation selects.
    pub fn get(&self, text: &str, core: &mut ShellCore) -> (r: Result<String, ExecError>)
        requires
            old(core).wf(),
            self.offset is Some,
        ensures
            final(core).wf(),
            final(core)@ == self@.get(old(core)@, text@).0,
            match r {
                Ok(s) => self@.get(old(core)@, text@).1 == Ok::<Seq<char>, ExecErrorView>(s@),
                Err(e) => self@.get(old(core)@, text@).1 == Err::<Seq<char>, ExecErrorView>(e@),
            },
    {
        let offset = match &self.offset {
            Some(o) => o,
            None => {
                return Ok(String::new());
            },
        };
        if offset.text.as_str().is_empty() {
            return Err(
                ExecError::ArithError(String::new(), ArithError::OperandExpected(String::new())),
            );
        }
        let mut n = offset.eval_as_int(core)?;
        let v = chars_of(text);
        if n < 0 {
            n = n + v.len() as i128;
            if n < 0 {
                return Ok(String::new());
            }
        }
        let ans = chars_from(&v, n);
        if self.length.is_some() {
            return self.length(ans.as_str(), core);
        }
        Ok(ans)
    }

    /// Applies the length to the elements that the offset left.
    fn cut_length(&self, array: &mut Vec<String>, text: &mut String, core: &mut ShellCore) -> (r: Result<
        (),
        ExecError,
    >)
        requires
            old(core).wf(),
            self.length is Some,
        ensures
            final(core).wf(),
            ({
                let cut = self@.cut_length(old(core)@, texts(old(array)@), old(text)@);
                &&& final(core)@ == cut.core
                &&& texts(final(array)@) == cut.array
                &&& final(text)@ == cut.text
                &&& crate::error::exec::outcome(r) == cut.result
            }),
    {
        let length = match &self.length {
            Some(l) => l,
            None => {
                return Ok(());
            },
        };
        if length.text.as_str().is_empty() {
            return Err(ExecError::BadSubstitution(String::new()));
        }
        let n = length.eval_as_int(core)?;
        if n < 0 {
            return Err(ExecError::SubstringMinus(n));
        }
        keep_first(array, n);
        proof {
            reveal_strlit(" ");
            assert(" "@ =~= seq![' ']);
        }
        *text = join(array, " ");
        Ok(())
    }

    /// Puts into `array` the range of the arguments that the operation
    /// selects, and into `text` these joined.
    fn set_partial_position_params(
        &self,
        array: &mut Vec<String>,
        text: &mut String,
        core: &mut ShellCore,
        ifs: &str,
    ) -> (r: Result<(), ExecError>)
        requires
            old(core).wf(),
            self.offset is Some,
        ensures
            final(core).wf(),
            ({
                let cut = self@.partial_position_params(
                    old(core)@,
                    texts(old(array)@),
                    old(text)@,
                    ifs@,
                );
                &&& final(core)@ == cut.core
                &&& texts(final(array)@) == cut.array
                &&& final(text)@ == cut.text
                &&& crate::error::exec::outcome(r) == cut.result
            }),
    {
        let offset = match &self.offset {
            Some(o) => o,
            None => {
                return Ok(());
            },
        };
        if offset.text.as_str().is_empty() {
            return Err(ExecError::BadSubstitution(String::new()));
        }
        *array = core.db.get_position_params();
        let ghost args = texts(array@);
        let mut n = offset.eval_as_int(core)?;
        let len = array.len();
        assert(args.len() == len);
        if n < 0 {
            n = n + len as i128;
            if n < 0 {
                *text = String::new();
                *array = Vec::new();
                assert(texts(array@) =~= Seq::<Seq<char>>::empty());
                return Ok(());
            }
        }
        if n <= len as i128 {
            let rest = array.split_off(n as usize);
            assert(texts(rest@) =~= args.skip(n as int));
            *array = rest;
        } else {
            *array = Vec::new();
            assert(texts(array@) =~= Seq::<Seq<char>>::empty());
        }
        if self.length.is_none() {
            *text = join(array, ifs);
            return Ok(());
        }
        self.cut_length(array, text, core)
    }

    /// Puts into `array` the range of the elements of the array `name`
    /// that the operation selects, and into `text` these joined by a space.
    fn set_partial_array(&self, name: &str, array: &mut Vec<String>, text: &mut String, core: &mut ShellCore) -> (r:
        Result<(), ExecError>)
        requires
            old(core).wf(),
            self.offset is Some,
        ensures
            final(core).wf(),
            ({
                let cut = self@.partial_array(old(core)@, name@, texts(old(array)@), old(text)@);
                &&& final(core)@ == cut.core
                &&& texts(final(array)@) == cut.array
                &&& final(text)@ == cut.text
                &&& crate::error::exec::outcome(r) == cut.result
            }),
    {
        let offset = match &self.offset {
            Some(o) => o,
            None => {
                return Ok(());
            },
        };
        if offset.text.as_str().is_empty() {
            return Err(ExecError::BadSubstitution(String::new()));
        }
        let mut n = offset.eval_as_int(core)?;
        let len = core.db.index_based_len(name);
        if n < 0 {
            n = n + len as i128;
            if n < 0 {
                *text = String::new();
                *array = Vec::new();
                assert(texts(array@) =~= Seq::<Seq<char>>::empty());
                return Ok(());
            }
        }
        if n <= usize::MAX as i128 {
            *array = core.db.get_vec_from(name, n as usize, true)?;
        } else {
            *array = Vec::new();
            assert(texts(array@) =~= Seq::<Seq<char>>::empty());
        }
        proof {
            reveal_strlit(" ");
            assert(" "@ =~= seq![' ']);
        }
        if self.length.is_none() {
            *text = join(array, " ");
            return Ok(());
        }
        self.cut_length(array, text, core)
    }

    /// Puts into `array` the range of what `param` stands for, and into
    /// `text` these joined: the arguments for `@` and `*`, else the
    /// elements of the array.
    pub fn set_array(&self, param: &Variable, array: &mut Vec<String>, text: &mut String, core: &mut ShellCore) -> (r:
        Result<(), ExecError>)
        requires
            old(core).wf(),
            self.offset is Some,
        ensures
            final(core).wf(),
            ({
                let cut = self@.cut(old(core)@, param@.name, texts(old(array)@), old(text)@);
                &&& final(core)@ == cut.core
                &&& texts(final(array)@) == cut.array
                &&& final(text)@ == cut.text
                &&& crate::error::exec::outcome(r) == cut.result
            }),
    {
        let ifs = core.db.get_ifs_head();
        proof {
            reveal_strlit(" ");
            assert(" "@ =~= seq![' ']);
        }
        if str_eq(param.name.as_str(), "@") {
            self.set_partial_position_params(array, text, core, " ")
        } else if str_eq(param.name.as_str(), "*") {
            self.set_partial_position_params(array, text, core, ifs.as_str())
        } else {
            self.set_partial_array(param.name.as_str(), array, text, core)
        }
    }

    /// Whether the operation applies to arrays.
    pub fn has_array_replace(&self) -> (r: bool)
        ensures
            r,
    {
        true
    }

    /// The source text.
    pub fn get_text(&self) -> (r: String)
        ensures
            r@ == self@.text,
    {
        self.text.clone()
    }

    /// Reads the length that follows the offset, where a `:` announces one.
    fn eat_length(feeder: &mut Feeder, ans: &mut Self)
        requires
            old(feeder).wf(),
        ensures
            final(feeder).wf(),
            final(ans).offset == old(ans).offset,
            ch(old(feeder)@, 0) != ':' ==> final(feeder)@ == old(feeder)@ && final(ans).text == old(ans).text && final(ans).length == old(ans).length,
            ch(old(feeder)@, 0) == ':' ==> match parsed_expr(old(feeder)@.skip(1)) {
                Some((v, m)) => final(feeder)@ == old(feeder)@.skip(m + 1) && final(ans).text@ == old(ans).text@ + old(feeder)@.take(m + 1) && expr_view(final(ans).length) == Some(v) && 0 <= m
                    < old(feeder)@.len(),
                None => final(feeder)@ == old(feeder)@.skip(1) && final(ans).text@ == old(ans).text@
                    + old(feeder)@.take(1) && final(ans).length is None,
            },
    {
        let ghost s0 = feeder@;
        proof {
            reveal_strlit(":");
        }
        if !feeder.starts_with(":") {
            proof {
                if s0.len() > 0 && s0[0] == ':' {
                    assert(":"@ =~= s0.subrange(0, 1));
                }
            }
            return;
        }
        proof {
            assert(":"@ =~= s0.subrange(0, 1));
            assert(s0.subrange(0, 1)[0] == s0[0]);
        }
        let colon = feeder.consume(1);
        ans.text.append(colon.as_str());
        match ArithmeticExpr::parse(feeder) {
            Ok(a) => {
                ans.text.append(a.text.as_str());
                proof {
                    let m = consumed(parsed_expr(s0.skip(1)));
                    assert(s0.take(1) + s0.skip(1).take(m) =~= s0.take(m + 1));
                    assert(ans.text@ =~= old(ans).text@ + s0.take(m + 1));
                    assert(feeder@ =~= s0.skip(m + 1));
                }
                ans.length = Some(a);
            },
            Err(_) => {
                ans.length = None;
            },
        }
    }

    /// Reads the operation that the text starts with: `:`, an offset, and,
    /// after another `:`, a length. Where the text does not start with `:`,
    /// nothing is consumed.
    pub fn parse(feeder: &mut Feeder) -> (r: Option<Self>)
        requires
            old(feeder).wf(),
        ensures
            final(feeder).wf(),
            match r {
                Some(a) => parsed_substr(old(feeder)@) matches Some((v, n)) && a@ == v && 0 <= n <= old(feeder)@.len() && final(feeder)@ == old(feeder)@.skip(n),
                None => parsed_substr(old(feeder)@) is None && final(feeder)@ == old(feeder)@,
            },
    {
        let ghost s0 = feeder@;
        proof {
            reveal_strlit(":");
        }
        if !feeder.starts_with(":") {
            proof {
                if s0.len() > 0 && s0[0] == ':' {
                    assert(":"@ =~= s0.subrange(0, 1));
                }
            }
            return None;
        }
        proof {
            assert(":"@ =~= s0.subrange(0, 1));
            assert(s0.subrange(0, 1)[0] == s0[0]);
        }
        let text = feeder.consume(1);
        assert(text@ =~= s0.take(1));
        let mut ans = Substr { text, offset: None, length: None };
        match ArithmeticExpr::parse(feeder) {
            Ok(a) => {
                ans.text.append(a.text.as_str());
                let ghost n = consumed(parsed_expr(s0.skip(1)));
                let ghost s1 = feeder@;
                proof {
                    assert(s0.take(1) + s0.skip(1).take(n) =~= s0.take(n + 1));
                    assert(s1 =~= s0.skip(n + 1));
                    assert(ch(s1, 0) == ch(s0, n + 1));
                }
                Self::eat_length(feeder, &mut ans);
                proof {
                    if ch(s1, 0) == ':' {
                        assert(s1.skip(1) =~= s0.skip(n + 2));
                        assert(s1.take(1) =~= s0.subrange(n + 1, n + 2));
                        assert(s0.take(n + 1) + s0.subrange(n + 1, n + 2) =~= s0.take(n + 2));
                        match parsed_expr(s1.skip(1)) {
                            Some((v, m)) => {
                                assert(s0.take(n + 1) + s1.take(m + 1) =~= s0.take(n + 2 + m));
                                assert(s1.skip(m + 1) =~= s0.skip(n + 2 + m));
                            },
                            None => {
                                assert(s1.skip(1) =~= s0.skip(n + 2));
                            },
                        }
                    }
                }
                ans.offset = Some(a);
            },
            Err(_) => {},
        }
        Some(ans)
    }
}

} // verus!
