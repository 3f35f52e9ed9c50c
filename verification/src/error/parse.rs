//! Failures of the parsers.

use vstd::prelude::*;
use crate::utils::text::glue;

verus! {

/// Why a text could not be parsed.
#[derive(Debug, PartialEq, Eq)]
pub enum ParseError {
    /// A symbol that cannot stand where it was found.
    UnexpectedSymbol(String),
    /// The input ended inside a construct.
    UnexpectedEof,
}

/// What a `ParseError` says, as plain values.
pub enum ParseErrorView {
    UnexpectedSymbol(Seq<char>),
    UnexpectedEof,
}

impl View for ParseError {
    type V = ParseErrorView;

    open spec fn view(&self) -> ParseErrorView {
        match self {
            ParseError::UnexpectedSymbol(s) => ParseErrorView::UnexpectedSymbol(s@),
            ParseError::UnexpectedEof => ParseErrorView::UnexpectedEof,
        }
    }
}

impl ParseErrorView {
    /// What the failure says.
    pub open spec fn message(self) -> Seq<char> {
        match self {
            ParseErrorView::UnexpectedSymbol(s) => "syntax error near unexpected token `"@ + s + "'"@,
            ParseErrorView::UnexpectedEof => "syntax error: unexpected end of file"@,
        }
    }
}

impl ParseError {
    /// What the failure says.
    pub fn message(&self) -> (r: String)
        ensures
            r@ == self@.message(),
    {
        match self {
            ParseError::UnexpectedSymbol(s) => {
                let mut m = glue("syntax error near unexpected token `", s.as_str());
                m.append("'");
                m
            },
            ParseError::UnexpectedEof => "syntax error: unexpected end of file".to_owned(),
        }
    }
}

} // verus!
