//! Failures of reads and writes on the parameter store.

use vstd::prelude::*;
use crate::error::arith::{ArithError, ArithErrorView};
use crate::error::parse::{ParseError, ParseErrorView};
use crate::error::arith::{int_error_message, int_error_text};
use crate::utils::number::{int_to_string, numeral_of, IntError};
use crate::utils::text::glue;

verus! {

/// Why a read or a write was refused.
#[derive(Debug, PartialEq, Eq)]
pub enum ExecError {
    /// The text is not the name of a parameter.
    InvalidName(String),
    /// The parameter is readonly.
    ReadOnly(String),
    /// The subscript does not address an element.
    ArrayIndexInvalid(String),
    /// A substring length below zero.
    SubstringMinus(i128),
    /// A substring operation without the offset or length it needs.
    BadSubstitution(String),
    /// The restricted shell refuses the value.
    Restricted(String),
    /// The arithmetic evaluator failed on the given source text.
    ArithError(String, ArithError),
    /// Malformed input outside arithmetic.
    SyntaxError(String),
    /// A parser failed.
    ParseError(ParseError),
    /// The value written to an integer parameter is not a numeral that fits.
    ParseInt(String, IntError),
    /// The file descriptor is not open.
    BadFd(i32),
    /// Anything else.
    Other(String),
}

/// What an `ExecError` says, as plain values.
pub enum ExecErrorView {
    InvalidName(Seq<char>),
    ReadOnly(Seq<char>),
    ArrayIndexInvalid(Seq<char>),
    SubstringMinus(i128),
    BadSubstitution(Seq<char>),
    Restricted(Seq<char>),
    ArithError(Seq<char>, ArithErrorView),
    SyntaxError(Seq<char>),
    ParseError(ParseErrorView),
    ParseInt(Seq<char>, IntError),
    BadFd(i32),
    Other(Seq<char>),
}

impl View for ExecError {
    type V = ExecErrorView;

    open spec fn view(&self) -> ExecErrorView {
        match self {
            ExecError::InvalidName(s) => ExecErrorView::InvalidName(s@),
            ExecError::ReadOnly(s) => ExecErrorView::ReadOnly(s@),
            ExecError::ArrayIndexInvalid(s) => ExecErrorView::ArrayIndexInvalid(s@),
            ExecError::SubstringMinus(n) => ExecErrorView::SubstringMinus(*n),
            ExecError::BadSubstitution(s) => ExecErrorView::BadSubstitution(s@),
            ExecError::Restricted(s) => ExecErrorView::Restricted(s@),
            ExecError::ArithError(s, e) => ExecErrorView::ArithError(s@, e@),
            ExecError::SyntaxError(s) => ExecErrorView::SyntaxError(s@),
            ExecError::ParseError(e) => ExecErrorView::ParseError(e@),
            ExecError::ParseInt(s, e) => ExecErrorView::ParseInt(s@, *e),
            ExecError::BadFd(fd) => ExecErrorView::BadFd(*fd),
            ExecError::Other(s) => ExecErrorView::Other(s@),
        }
    }
}

/// The outcome of an operation that changes nothing but may fail.
pub open spec fn outcome(r: Result<(), ExecError>) -> Result<(), ExecErrorView> {
    match r {
        Ok(()) => Ok(()),
        Err(e) => Err(e@),
    }
}

/// A text between a backquote and a quote, then what is said of it.
pub open spec fn quoted(text: Seq<char>, what: Seq<char>) -> Seq<char> {
    "`"@ + text + "'"@ + what
}

impl ExecErrorView {
    /// What the failure says.
    pub open spec fn message(self) -> Seq<char> {
        match self {
            ExecErrorView::InvalidName(s) => quoted(s, ": invalid name"@),
            ExecErrorView::ReadOnly(s) => s + ": readonly variable"@,
            ExecErrorView::ArrayIndexInvalid(s) => quoted(s, ": not a valid index"@),
            ExecErrorView::SubstringMinus(n) => numeral_of(n as int) + ": substring expression < 0"@,
            ExecErrorView::BadSubstitution(s) => quoted(s, ": bad substitution"@),
            ExecErrorView::Restricted(s) => s + ": restricted"@,
            ExecErrorView::ArithError(s, e) => s + ": "@ + e.message(),
            ExecErrorView::SyntaxError(s) => "syntax error near unexpected token "@ + quoted(
                s,
                Seq::empty(),
            ),
            ExecErrorView::ParseError(e) => e.message(),
            ExecErrorView::ParseInt(s, e) => s + ": "@ + int_error_text(e),
            ExecErrorView::BadFd(fd) => numeral_of(fd as int) + ": bad file descriptor"@,
            ExecErrorView::Other(s) => s,
        }
    }
}

fn quote(text: &str, what: &str) -> (r: String)
    ensures
        r@ == quoted(text@, what@),
{
    let mut s = glue("`", text);
    s.append("'");
    s.append(what);
    s
}

impl ExecError {
    /// What the failure says.
    pub fn message(&self) -> (r: String)
        ensures
            r@ == self@.message(),
    {
        match self {
            ExecError::InvalidName(s) => quote(s.as_str(), ": invalid name"),
            ExecError::ReadOnly(s) => glue(s.as_str(), ": readonly variable"),
            ExecError::ArrayIndexInvalid(s) => quote(s.as_str(), ": not a valid index"),
            ExecError::SubstringMinus(n) => {
                let t = int_to_string(*n);
                glue(t.as_str(), ": substring expression < 0")
            },
            ExecError::BadSubstitution(s) => quote(s.as_str(), ": bad substitution"),
            ExecError::Restricted(s) => glue(s.as_str(), ": restricted"),
            ExecError::ArithError(s, e) => {
                let mut m = glue(s.as_str(), ": ");
                let what = e.message();
                m.append(what.as_str());
                m
            },
            ExecError::SyntaxError(s) => {
                proof {
                    reveal_strlit("");
                    assert(""@ =~= Seq::<char>::empty());
                }
                let q = quote(s.as_str(), "");
                glue("syntax error near unexpected token ", q.as_str())
            },
            ExecError::ParseError(e) => e.message(),
            ExecError::ParseInt(s, e) => {
                let mut m = glue(s.as_str(), ": ");
                m.append(int_error_message(*e));
                m
            },
            ExecError::BadFd(fd) => {
                let t = int_to_string(*fd as i128);
                glue(t.as_str(), ": bad file descriptor")
            },
            ExecError::Other(s) => s.clone(),
        }
    }
}

} // verus!
