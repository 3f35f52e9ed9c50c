//! Shell arithmetic: tokens, their rearrangement to postfix, evaluation.

pub mod calculator;
pub mod elem;
pub mod parser;
pub mod rev_polish;

use vstd::prelude::*;
use crate::elements::expr::arithmetic::calculator::{eval_elems, eval_tokens};
use crate::elements::expr::arithmetic::elem::{elem_views, ArithElem, ElemView};
use crate::elements::expr::arithmetic::parser::{found, lemma_tokens_skip, read_tokens, tokens_from};
use crate::error::exec::{ExecError, ExecErrorView};
use crate::error::parse::{ParseError, ParseErrorView};
use crate::feeder::Feeder;
use crate::shell::database::DbView;
use crate::shell::ShellCore;
use crate::utils::number::{int_to_string, numeral_of};
use crate::utils::text::string_of_range;

verus! {

/// An arithmetic expression: its source text and its tokens.
#[derive(Debug, PartialEq, Eq)]
pub struct ArithmeticExpr {
    pub text: String,
    pub elements: Vec<ArithElem>,
}

/// An arithmetic expression as plain values.
pub struct ArithmeticExprView {
    pub text: Seq<char>,
    pub elements: Seq<ElemView>,
}

/// The expression that the text starts with, and its length: the tokens up
/// to the first character that starts none.
pub open spec fn parsed_expr(s: Seq<char>) -> Option<(ArithmeticExprView, int)> {
    match tokens_from(s, 0, false) {
        Some((ts, end)) => Some((ArithmeticExprView { text: s.take(end), elements: ts }, end)),
        None => None,
    }
}

impl View for ArithmeticExpr {
    type V = ArithmeticExprView;

    open spec fn view(&self) -> ArithmeticExprView {
        ArithmeticExprView { text: self.text@, elements: elem_views(self.elements@) }
    }
}

impl ArithmeticExprView {
    /// The store and the value after the evaluation.
    pub open spec fn eval_as_int(self, db: DbView) -> (DbView, Result<i128, ExecErrorView>) {
        eval_tokens(db, self.elements)
    }

    /// The store and the numeral of the value after the evaluation.
    pub open spec fn eval(self, db: DbView) -> (DbView, Result<Seq<char>, ExecErrorView>) {
        let (db1, r) = eval_tokens(db, self.elements);
        (
            db1,
            match r {
                Ok(n) => Ok(numeral_of(n as int)),
                Err(e) => Err(e),
            },
        )
    }
}

impl ArithmeticExpr {
    /// Reads the expression that the text starts with. A text that holds a
    /// number that does not fit, an open parenthesis or a `?` without its
    /// `:` is refused, and nothing is consumed.
    pub fn parse(feeder: &mut Feeder) -> (r: Result<Self, ParseError>)
        requires
            old(feeder).wf(),
        ensures
            final(feeder).wf(),
            final(feeder).lineno == old(feeder).lineno,
            final(feeder).chars == old(feeder).chars,
            final(feeder).pos >= old(feeder).pos,
            match r {
                Ok(a) => parsed_expr(old(feeder)@) matches Some((v, n)) && a@ == v && 0 <= n <= old(feeder)@.len() && final(feeder)@ == old(feeder)@.skip(n),
                Err(e) => parsed_expr(old(feeder)@) is None && final(feeder)@ == old(feeder)@ && e@
                    == ParseErrorView::UnexpectedSymbol(old(feeder)@),
            },
    {
        let ghost s0 = feeder@;
        let start = feeder.pos;
        let mut elements: Vec<ArithElem> = Vec::new();
        proof {
            assert(elem_views(elements@) =~= Seq::<ElemView>::empty());
            lemma_tokens_skip(feeder.chars@, start as int, 0, false);
        }
        match read_tokens(&feeder.chars, start, false, &mut elements) {
            Some(end) => {
                let ghost ts = found(tokens_from(s0, 0, false));
                assert(Seq::<ElemView>::empty() + ts =~= ts);
                let text = feeder.consume(end - start);
                Ok(ArithmeticExpr { text, elements })
            },
            None => {
                let rest = string_of_range(&feeder.chars, start, feeder.chars.len());
                assert(rest@ =~= s0);
                Err(ParseError::UnexpectedSymbol(rest))
            },
        }
    }

    /// Evaluates the expression against the store.
    pub fn eval_as_int(&self, core: &mut ShellCore) -> (r: Result<i128, ExecError>)
        requires
            old(core).wf(),
        ensures
            final(core).wf(),
            final(core)@ == old(core)@.with_db(self@.eval_as_int(old(core)@.db).0),
            match r {
                Ok(v) => self@.eval_as_int(old(core)@.db).1 == Ok::<i128, ExecErrorView>(v),
                Err(e) => self@.eval_as_int(old(core)@.db).1 == Err::<i128, ExecErrorView>(e@),
            },
    {
        eval_elems(&self.elements, &mut core.db)
    }

    /// Evaluates the expression against the store and gives the numeral of
    /// its value.
    pub fn eval(&self, core: &mut ShellCore) -> (r: Result<String, ExecError>)
        requires
            old(core).wf(),
        ensures
            final(core).wf(),
            final(core)@ == old(core)@.with_db(self@.eval(old(core)@.db).0),
            match r {
                Ok(s) => self@.eval(old(core)@.db).1 == Ok::<Seq<char>, ExecErrorView>(s@),
                Err(e) => self@.eval(old(core)@.db).1 == Err::<Seq<char>, ExecErrorView>(e@),
            },
    {
        match self.eval_as_int(core) {
            Ok(n) => Ok(int_to_string(n)),
            Err(e) => Err(e),
        }
    }
}

} // verus!
