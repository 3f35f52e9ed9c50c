//! Process substitution: `<(command)` and `>(command)`.

use vstd::prelude::*;
use crate::elements::expr::arithmetic::parser::ch;
use crate::error::exec::{ExecError, ExecErrorView};
use crate::error::parse::{ParseError, ParseErrorView};
use crate::feeder::Feeder;
use crate::utils::number::{int_to_string, numeral_of};
use crate::utils::text::{glue, string_of_range};

verus! {

/// Where a word stands.
#[derive(Clone, Copy, Debug, PartialEq, Eq, Structural)]
pub enum WordMode {
    /// Inside an arithmetic expression.
    Arithmetic,
    /// On the right side of an assignment.
    RightOfSubstitution,
    /// Anywhere else.
    Plain,
}

/// A process substitution: its command and its direction.
#[derive(Debug, PartialEq, Eq)]
pub struct ProcessSubstitution {
    /// The source text; after the substitution, the path that stands for it.
    pub text: String,
    /// The command, parentheses included.
    pub command: String,
    /// `<` for a command that is read from, `>` for one that is written to.
    pub direction: char,
}

/// A process substitution as plain values.
pub struct ProcessSubstitutionView {
    pub text: Seq<char>,
    pub command: Seq<char>,
    pub direction: char,
}

/// The index after the parenthesis that closes `depth` open ones, from `pos`
/// on; `None` where the text ends before it.
pub open spec fn closing(s: Seq<char>, pos: int, depth: int) -> Option<int>
    decreases s.len() - pos,
{
    if pos < 0 || pos >= s.len() {
        None
    } else if s[pos] == ')' {
        if depth <= 1 {
            Some(pos + 1)
        } else {
            closing(s, pos + 1, depth - 1)
        }
    } else if s[pos] == '(' {
        closing(s, pos + 1, depth + 1)
    } else {
        closing(s, pos + 1, depth)
    }
}

/// The substitution that the text starts with, and its length: `<` or `>`,
/// then a command in parentheses. Inside arithmetic there is none. A text
/// that ends inside the parentheses fails as an unexpected end.
pub open spec fn parsed_process_sub(s: Seq<char>, mode: Option<WordMode>) -> Result<
    Option<(ProcessSubstitutionView, int)>,
    ParseErrorView,
> {
    if mode == Some(WordMode::Arithmetic) {
        Ok(None)
    } else if !((ch(s, 0) == '<' || ch(s, 0) == '>') && ch(s, 1) == '(') {
        Ok(None)
    } else {
        match closing(s, 2, 1) {
            Some(end) => Ok(
                Some(
                    (
                        ProcessSubstitutionView {
                            text: s.take(end),
                            command: s.subrange(1, end),
                            direction: s[0],
                        },
                        end,
                    ),
                ),
            ),
            None => Err(ParseErrorView::UnexpectedEof),
        }
    }
}

/// The path that stands for the reading end `fd` of a pipe.
pub open spec fn fd_path(fd: i32) -> Seq<char> {
    "/dev/fd/"@ + numeral_of(fd as int)
}

impl View for ProcessSubstitution {
    type V = ProcessSubstitutionView;

    open spec fn view(&self) -> ProcessSubstitutionView {
        ProcessSubstitutionView {
            text: self.text@,
            command: self.command@,
            direction: self.direction,
        }
    }
}

impl ProcessSubstitution {
    /// The source text.
    pub fn get_text(&self) -> (r: String)
        ensures
            r@ == self@.text,
    {
        self.text.clone()
    }

    /// Whether the substitution can be made: only a command that is read
    /// from is supported.
    pub fn check(&self) -> (r: Result<(), ExecError>)
        ensures
            crate::error::exec::outcome(r) == if self.direction != '<' {
                Err::<(), ExecErrorView>(ExecErrorView::Other(">() is not supported yet"@))
            } else {
                Ok::<(), ExecErrorView>(())
            },
    {
        if self.direction != '<' {
            return Err(ExecError::Other(">() is not supported yet".to_owned()));
        }
        Ok(())
    }

    /// Puts the path of the reading end `recv` of the pipe, which the
    /// caller has connected to the command, in place of the text.
    pub fn substitute(&mut self, recv: i32) -> (r: Result<(), ExecError>)
        ensures
            final(self).command == old(self).command,
            final(self).direction == old(self).direction,
            old(self).direction != '<' ==> crate::error::exec::outcome(r) == Err::<
                (),
                ExecErrorView,
            >(ExecErrorView::Other(">() is not supported yet"@)) && final(self).text == old(self).text,
            old(self).direction == '<' ==> r is Ok && final(self).text@ == fd_path(recv),
    {
        self.check()?;
        let n = int_to_string(recv as i128);
        self.text = glue("/dev/fd/", n.as_str());
        Ok(())
    }

    /// Reads the substitution that the text starts with. Where the text
    /// starts with none, or ends inside the parentheses, nothing is
    /// consumed.
    pub fn parse(feeder: &mut Feeder, mode: &Option<WordMode>) -> (r: Result<Option<Self>, ParseError>)
        requires
            old(feeder).wf(),
        ensures
            final(feeder).wf(),
            match r {
                Ok(Some(p)) => parsed_process_sub(old(feeder)@, *mode) matches Ok(Some((v, n))) && p@
                    == v && 0 <= n <= old(feeder)@.len() && final(feeder)@ == old(feeder)@.skip(n),
                Ok(None) => parsed_process_sub(old(feeder)@, *mode) == Ok::<
                    Option<(ProcessSubstitutionView, int)>,
                    ParseErrorView,
                >(None) && final(feeder)@ == old(feeder)@,
                Err(e) => parsed_process_sub(old(feeder)@, *mode) == Err::<
                    Option<(ProcessSubstitutionView, int)>,
                    ParseErrorView,
                >(e@) && final(feeder)@ == old(feeder)@,
            },
    {
        if let Some(WordMode::Arithmetic) = mode {
            return Ok(None);
        }
        let rest = feeder.rest();
        let ghost s = rest@;
        if rest.len() < 2 || !(rest[0] == '<' || rest[0] == '>') || rest[1] != '(' {
            return Ok(None);
        }
        let mut depth: usize = 1;
        let mut i: usize = 2;
        let mut end: Option<usize> = None;
        while i < rest.len()
            invariant_except_break
                end is None,
                2 <= i <= rest.len(),
                1 <= depth < i,
                closing(s, 2, 1) == closing(s, i as int, depth as int),
            invariant
                s == rest@,
            ensures
                match end {
                    Some(e) => closing(s, 2, 1) == Some(e as int) && 2 < e <= rest.len(),
                    None => closing(s, 2, 1) is None,
                },
            decreases rest.len() - i,
        {
            let c = rest[i];
            if c == ')' {
                if depth <= 1 {
                    end = Some(i + 1);
                    break;
                }
                depth -= 1;
            } else if c == '(' {
                depth += 1;
            }
            i += 1;
        }
        match end {
            Some(e) => {
                let text = feeder.consume(e);
                let command = string_of_range(&rest, 1, e);
                Ok(Some(ProcessSubstitution { text, command, direction: rest[0] }))
            },
            None => Err(ParseError::UnexpectedEof),
        }
    }
}

} // verus!
