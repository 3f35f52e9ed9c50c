//! Failures of the arithmetic evaluator.

use vstd::prelude::*;
use crate::utils::number::IntError;
use crate::utils::text::glue;

verus! {

/// Why an arithmetic expression could not be evaluated.
#[derive(Debug, PartialEq, Eq)]
pub enum ArithError {
    /// Two operands in a row, or an operator left without its operands.
    SyntaxError(String),
    /// An operator found no operand where it needed one.
    OperandExpected(String),
    /// Division or remainder by zero.
    DivZero,
    /// The left side of an assignment or an increment is not a parameter.
    AssignmentToNonVariable(String),
    /// A parameter's value is not a numeral.
    InvalidNumber(String, IntError),
}

/// What an `ArithError` says, as plain values.
pub enum ArithErrorView {
    SyntaxError(Seq<char>),
    OperandExpected(Seq<char>),
    DivZero,
    AssignmentToNonVariable(Seq<char>),
    InvalidNumber(Seq<char>, IntError),
}

impl View for ArithError {
    type V = ArithErrorView;

    open spec fn view(&self) -> ArithErrorView {
        match self {
            ArithError::SyntaxError(s) => ArithErrorView::SyntaxError(s@),
            ArithError::OperandExpected(s) => ArithErrorView::OperandExpected(s@),
            ArithError::DivZero => ArithErrorView::DivZero,
            ArithError::AssignmentToNonVariable(s) => ArithErrorView::AssignmentToNonVariable(s@),
            ArithError::InvalidNumber(s, e) => ArithErrorView::InvalidNumber(s@, *e),
        }
    }
}

/// What is said of a text that is no numeral.
pub open spec fn int_error_text(e: IntError) -> Seq<char> {
    match e {
        IntError::Empty => "cannot parse integer from empty string"@,
        IntError::InvalidDigit => "invalid digit found in string"@,
        IntError::PosOverflow => "number too large to fit in target type"@,
        IntError::NegOverflow => "number too small to fit in target type"@,
    }
}

/// The message with the token at which the expression broke.
pub open spec fn with_token(what: Seq<char>, token: Seq<char>) -> Seq<char> {
    what + " (error token is \""@ + token + "\")"@
}

impl ArithErrorView {
    /// What the failure says.
    pub open spec fn message(self) -> Seq<char> {
        match self {
            ArithErrorView::SyntaxError(t) => with_token("syntax error in expression"@, t),
            ArithErrorView::OperandExpected(t) => with_token("operand expected"@, t),
            ArithErrorView::DivZero => "division by 0"@,
            ArithErrorView::AssignmentToNonVariable(t) => with_token(
                "attempted assignment to non-variable"@,
                t,
            ),
            ArithErrorView::InvalidNumber(t, e) => with_token(int_error_text(e), t),
        }
    }
}

/// What is said of a text that is no numeral.
pub fn int_error_message(e: IntError) -> (r: &'static str)
    ensures
        r@ == int_error_text(e),
{
    match e {
        IntError::Empty => "cannot parse integer from empty string",
        IntError::InvalidDigit => "invalid digit found in string",
        IntError::PosOverflow => "number too large to fit in target type",
        IntError::NegOverflow => "number too small to fit in target type",
    }
}

fn token_message(what: &str, token: &str) -> (r: String)
    ensures
        r@ == with_token(what@, token@),
{
    let mut s = glue(what, " (error token is \"");
    s.append(token);
    s.append("\")");
    s
}

impl ArithError {
    /// What the failure says.
    pub fn message(&self) -> (r: String)
        ensures
            r@ == self@.message(),
    {
        match self {
            ArithError::SyntaxError(t) => token_message("syntax error in expression", t.as_str()),
            ArithError::OperandExpected(t) => token_message("operand expected", t.as_str()),
            ArithError::DivZero => "division by 0".to_owned(),
            ArithError::AssignmentToNonVariable(t) => token_message(
                "attempted assignment to non-variable",
                t.as_str(),
            ),
            ArithError::InvalidNumber(t, e) => token_message(int_error_message(*e), t.as_str()),
        }
    }
}

} // verus!
