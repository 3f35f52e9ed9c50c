//! Subscripts: the `[...]` after a name. Parsed once, evaluated against the
//! kind that the parameter has at that moment.

use vstd::prelude::*;
use crate::elements::expr::arithmetic::parser::{ch, tokens_from};
use crate::elements::expr::arithmetic::{parsed_expr, ArithmeticExpr, ArithmeticExprView};
use crate::elements::word::{expand_variables, expanded};
use crate::error::exec::{ExecError, ExecErrorView};
use crate::error::parse::{ParseError, ParseErrorView};
use crate::feeder::Feeder;
use crate::shell::{ShellView, ShellCore};
use crate::utils::text::{glue, str_eq};

verus! {

/// What stands between the brackets of a subscript.
#[derive(Debug, PartialEq, Eq)]
pub enum SubscriptType {
    /// Nothing between the brackets that could be read.
    Unset,
    /// An arithmetic expression, not evaluated yet.
    Arith(ArithmeticExpr),
    /// `@` or `*`: all elements.
    Array(String),
}

/// What stands between the brackets, as plain values.
pub enum SubscriptTypeView {
    Unset,
    Arith(ArithmeticExprView),
    Array(Seq<char>),
}

/// A subscript: its source text and what it addresses.
#[derive(Debug, PartialEq, Eq)]
pub struct Subscript {
    /// The source text, brackets included.
    pub text: String,
    pub data: SubscriptType,
}

/// A subscript as plain values.
pub struct SubscriptView {
    pub text: Seq<char>,
    pub data: SubscriptTypeView,
}

/// The subscript that the text starts with, and its length: `[`, then `@`
/// or `*` or an arithmetic expression, then `]`. A text that starts with
/// none gives nothing; an expression that cannot be read is a failure.
pub open spec fn parsed_subscript(s: Seq<char>) -> Result<Option<(SubscriptView, int)>, ParseErrorView> {
    if ch(s, 0) != '[' {
        Ok(None)
    } else if ch(s, 1) == '@' || ch(s, 1) == '*' {
        if ch(s, 2) == ']' {
            Ok(
                Some(
                    (SubscriptView { text: s.take(3), data: SubscriptTypeView::Array(seq![s[1]]) }, 3),
                ),
            )
        } else {
            Ok(None)
        }
    } else {
        match tokens_from(s, 1, false) {
            Some((ts, end)) => if 1 <= end < s.len() && s[end] == ']' {
                Ok(
                    Some(
                        (
                            SubscriptView {
                                text: s.take(end + 1),
                                data: SubscriptTypeView::Arith(
                                    ArithmeticExprView { text: s.subrange(1, end), elements: ts },
                                ),
                            },
                            end + 1,
                        ),
                    ),
                )
            } else {
                Ok(None)
            },
            None => Err(ParseErrorView::UnexpectedSymbol(s.skip(1))),
        }
    }
}

impl View for SubscriptType {
    type V = SubscriptTypeView;

    open spec fn view(&self) -> SubscriptTypeView {
        match self {
            SubscriptType::Unset => SubscriptTypeView::Unset,
            SubscriptType::Arith(a) => SubscriptTypeView::Arith(a@),
            SubscriptType::Array(s) => SubscriptTypeView::Array(s@),
        }
    }
}

impl View for Subscript {
    type V = SubscriptView;

    open spec fn view(&self) -> SubscriptView {
        SubscriptView { text: self.text@, data: self.data@ }
    }
}

impl SubscriptView {
    /// The shell and the index after the evaluation for the parameter
    /// `name`: the wildcard as it is; for a parameter that is no associative
    /// array the numeral of the expression's value; for an associative
    /// array the expression's text taken as a word, or as it stands where
    /// the option to expand once is active. An empty expression addresses
    /// nothing.
    pub open spec fn eval(self, core: ShellView, name: Seq<char>) -> (
        ShellView,
        Result<Seq<char>, ExecErrorView>,
    ) {
        match self.data {
            SubscriptTypeView::Array(a) => (core, Ok(a)),
            SubscriptTypeView::Arith(a) => if a.text.len() == 0 {
                (core, Err(ExecErrorView::ArrayIndexInvalid(a.text)))
            } else if !core.db.is_assoc(name) {
                (core.with_db(a.eval(core.db).0), a.eval(core.db).1)
            } else if core.expand_once() {
                (core, Ok(a.text))
            } else {
                (core, Ok(expanded(core.db, a.text, 0)))
            },
            SubscriptTypeView::Unset => (core, Err(ExecErrorView::ArrayIndexInvalid(Seq::empty()))),
        }
    }

    /// The text that a subscript is reparsed from: the index in brackets.
    pub open spec fn bracketed(index: Seq<char>) -> Seq<char> {
        seq!['['] + index + seq![']']
    }
}

impl Subscript {
    /// A copy of the subscript.
    pub fn duplicate(&self) -> (r: Self)
        ensures
            r@ == self@,
    {
        let data = match &self.data {
            SubscriptType::Unset => SubscriptType::Unset,
            SubscriptType::Array(a) => SubscriptType::Array(a.clone()),
            SubscriptType::Arith(a) => SubscriptType::Arith(
                ArithmeticExpr {
                    text: a.text.clone(),
                    elements: crate::elements::expr::arithmetic::elem::duplicate_all(&a.elements),
                },
            ),
        };
        Subscript { text: self.text.clone(), data }
    }

    /// Evaluates the subscript for the parameter `param_name`.
    pub fn eval(&self, core: &mut ShellCore, param_name: &str) -> (r: Result<String, ExecError>)
        requires
            old(core).wf(),
        ensures
            final(core).wf(),
            final(core)@ == self@.eval(old(core)@, param_name@).0,
            match r {
                Ok(s) => self@.eval(old(core)@, param_name@).1 == Ok::<Seq<char>, ExecErrorView>(s@),
                Err(e) => self@.eval(old(core)@, param_name@).1 == Err::<Seq<char>, ExecErrorView>(
                    e@,
                ),
            },
    {
        match &self.data {
            SubscriptType::Array(a) => Ok(a.clone()),
            SubscriptType::Arith(a) => {
                if a.text.as_str().is_empty() {
                    return Err(ExecError::ArrayIndexInvalid(a.text.clone()));
                }
                if !core.db.is_assoc(param_name) {
                    return a.eval(core);
                }
                if core.expand_once() {
                    return Ok(a.text.clone());
                }
                Ok(expand_variables(a.text.as_str(), &core.db))
            },
            SubscriptType::Unset => Err(ExecError::ArrayIndexInvalid(String::new())),
        }
    }

    /// Evaluates the subscript for `param_name` and puts in its place the
    /// subscript that its index, in brackets, parses to. A wildcard stays.
    /// An index that parses to no subscript is refused as a name.
    pub fn reparse(&mut self, core: &mut ShellCore, param_name: &str) -> (r: Result<(), ExecError>)
        requires
            old(core).wf(),
        ensures
            final(core).wf(),
            final(core)@ == old(self)@.eval(old(core)@, param_name@).0,
            old(self)@.data is Array ==> r is Ok && final(self)@ == old(self)@,
            !(old(self)@.data is Array) ==> match old(self)@.eval(old(core)@, param_name@).1 {
                Err(e) => r matches Err(e2) && e2@ == e && final(self)@ == old(self)@,
                Ok(index) => match parsed_subscript(SubscriptView::bracketed(index)) {
                    Ok(Some((v, _))) => r is Ok && final(self)@ == v,
                    _ => r matches Err(e2) && e2@ == ExecErrorView::InvalidName(
                        SubscriptView::bracketed(index),
                    ) && final(self)@ == old(self)@,
                },
            },
    {
        if let SubscriptType::Array(_) = &self.data {
            return Ok(());
        }
        let index = self.eval(core, param_name)?;
        let mut text = glue("[", index.as_str());
        text.push(']');
        proof {
            reveal_strlit("[");
            assert(text@ =~= SubscriptView::bracketed(index@));
        }
        let mut f = Feeder::new(text.as_str());
        match Self::parse(&mut f) {
            Ok(Some(s)) => {
                *self = s;
                Ok(())
            },
            _ => Err(ExecError::InvalidName(text)),
        }
    }

    /// Reads the subscript that the text starts with: `[`, then `@` or `*`
    /// or an arithmetic expression, then `]`. Where the text starts with
    /// none, nothing is consumed.
    pub fn parse(feeder: &mut Feeder) -> (r: Result<Option<Self>, ParseError>)
        requires
            old(feeder).wf(),
        ensures
            final(feeder).wf(),
            final(feeder).lineno == old(feeder).lineno,
            final(feeder).chars == old(feeder).chars,
            final(feeder).pos >= old(feeder).pos,
            match r {
                Ok(Some(s)) => parsed_subscript(old(feeder)@) matches Ok(Some((v, n))) && s@ == v && 0
                    <= n <= old(feeder)@.len() && final(feeder)@ == old(feeder)@.skip(n) && final(feeder).pos == old(feeder).pos + n,
                Ok(None) => parsed_subscript(old(feeder)@) == Ok::<
                    Option<(SubscriptView, int)>,
                    ParseErrorView,
                >(None) && final(feeder).pos == old(feeder).pos,
                Err(e) => parsed_subscript(old(feeder)@) == Err::<
                    Option<(SubscriptView, int)>,
                    ParseErrorView,
                >(e@) && final(feeder).pos == old(feeder).pos,
            },
    {
        let ghost s0 = feeder@;
        let start = feeder.pos;
        proof {
            reveal_strlit("[");
            reveal_strlit("]");
            reveal_strlit("@");
            reveal_strlit("*");
        }
        if !feeder.starts_with("[") {
            assert(ch(s0, 0) != '[') by {
                if s0.len() > 0 && s0[0] == '[' {
                    assert("["@ =~= s0.subrange(0, 1));
                }
            }
            return Ok(None);
        }
        assert(s0[0] == '[') by {
            assert("["@ =~= s0.subrange(0, 1));
            assert(s0.subrange(0, 1)[0] == s0[0]);
        }
        let mut text = feeder.consume(1);
        let ghost s1 = feeder@;
        let data;
        let at = feeder.starts_with("@");
        let star = feeder.starts_with("*");
        proof {
            if at {
                assert("@"@ =~= s1.subrange(0, 1));
                assert(s1.subrange(0, 1)[0] == s1[0]);
            } else if s1.len() > 0 && s1[0] == '@' {
                assert("@"@ =~= s1.subrange(0, 1));
            }
            if star {
                assert("*"@ =~= s1.subrange(0, 1));
                assert(s1.subrange(0, 1)[0] == s1[0]);
            } else if s1.len() > 0 && s1[0] == '*' {
                assert("*"@ =~= s1.subrange(0, 1));
            }
            if s1.len() > 0 {
                assert(s1[0] == s0[1]);
            }
        }
        if at || star {
            let s = feeder.consume(1);
            text.append(s.as_str());
            proof {
                assert(s@ =~= seq![s0[1]]);
                assert(text@ =~= s0.take(2));
                assert(feeder@ =~= s0.skip(2));
            }
            data = SubscriptType::Array(s);
        } else {
            match ArithmeticExpr::parse(feeder) {
                Ok(a) => {
                    text.append(a.text.as_str());
                    proof {
                        lemma_tokens_shift(s0, 1);
                        let n = consumed(parsed_expr(s1));
                        assert(text@ =~= s0.take(n + 1));
                        assert(a@.text =~= s0.subrange(1, n + 1));
                        assert(feeder@ =~= s0.skip(n + 1));
                    }
                    data = SubscriptType::Arith(a);
                },
                Err(e) => {
                    proof {
                        lemma_tokens_shift(s0, 1);
                    }
                    feeder.rewind(start);
                    return Err(e);
                },
            }
        }
        let ghost s2 = feeder@;
        let ghost m = s0.len() - s2.len();
        assert(s2 =~= s0.skip(m));
        if !feeder.starts_with("]") {
            proof {
                if s2.len() > 0 && s2[0] == ']' {
                    assert("]"@ =~= s2.subrange(0, 1));
                }
                if s2.len() > 0 {
                    assert(s2[0] == s0[m]);
                }
            }
            feeder.rewind(start);
            return Ok(None);
        }
        proof {
            assert("]"@ =~= s2.subrange(0, 1));
            assert(s2.subrange(0, 1)[0] == s2[0]);
        }
        let close = feeder.consume(1);
        text.append(close.as_str());
        proof {
            let n = s0.len() - s2.len();
            assert(s2[0] == s0[n]);
            assert(close@ =~= seq![s0[n]]);
            assert(text@ =~= s0.take(n + 1));
            assert(feeder@ =~= s0.skip(n + 1));
        }
        Ok(Some(Subscript { text, data }))
    }
}

/// With the option to expand once active, a subscript of an associative
/// array evaluates to its own source text and changes nothing, however
/// often it is evaluated.
pub proof fn lemma_expand_once_repeats(sub: SubscriptView, core: ShellView, name: Seq<char>)
    requires
        core.expand_once(),
        core.db.is_assoc(name),
        sub.data matches SubscriptTypeView::Arith(a) && a.text.len() > 0,
    ensures
        sub.eval(core, name) == (core, Ok::<Seq<char>, ExecErrorView>(sub.data->Arith_0.text)),
        sub.eval(sub.eval(core, name).0, name) == sub.eval(core, name),
{
}

/// The length of the expression that was read; 0 where none was.
pub open spec fn consumed(r: Option<(ArithmeticExprView, int)>) -> int {
    match r {
        Some((_, n)) => n,
        None => 0,
    }
}

/// The tokens of a text from `k` on are those of the text without its first
/// `k` characters, with every index moved by `k`.
pub proof fn lemma_tokens_shift(s: Seq<char>, k: int)
    requires
        0 <= k <= s.len(),
    ensures
        match tokens_from(s.skip(k), 0, false) {
            Some((ts, end)) => tokens_from(s, k, false) == Some((ts, end + k)),
            None => tokens_from(s, k, false) is None,
        },
{
    crate::elements::expr::arithmetic::parser::lemma_tokens_skip(s, k, 0, false);
}

} // verus!
