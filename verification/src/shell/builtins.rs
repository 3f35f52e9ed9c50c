//! What the builtins that look into the store decide. They print nothing:
//! what they have to say stands in a report for the caller to print.

pub mod command;
pub mod hash;

use vstd::prelude::*;
use crate::utils::text::{glue, texts};

verus! {

/// What a builtin leaves behind: its exit status, and the lines for the
/// standard output and for the standard error.
#[derive(Debug, PartialEq, Eq)]
pub struct Report {
    pub status: i32,
    pub out: Vec<String>,
    pub err: Vec<String>,
}

/// A report as plain values.
pub struct ReportView {
    pub status: i32,
    pub out: Seq<Seq<char>>,
    pub err: Seq<Seq<char>>,
}

impl View for Report {
    type V = ReportView;

    open spec fn view(&self) -> ReportView {
        ReportView { status: self.status, out: texts(self.out@), err: texts(self.err@) }
    }
}

impl ReportView {
    /// A report of success with nothing to say.
    pub open spec fn quiet() -> ReportView {
        ReportView { status: 0, out: Seq::empty(), err: Seq::empty() }
    }

    /// A report of the failure of `command` with the message `msg`.
    pub open spec fn failure(status: i32, command: Seq<char>, msg: Seq<char>) -> ReportView {
        ReportView { status, out: Seq::empty(), err: seq![command + ": "@ + msg] }
    }
}

impl Report {
    /// A report of success with nothing to say.
    pub fn quiet() -> (r: Report)
        ensures
            r@ == ReportView::quiet(),
    {
        let r = Report { status: 0, out: Vec::new(), err: Vec::new() };
        proof {
            assert(r@.out =~= Seq::<Seq<char>>::empty());
            assert(r@.err =~= Seq::<Seq<char>>::empty());
        }
        r
    }

    /// A report of the failure of `command` with the message `msg`.
    pub fn error_exit(status: i32, command: &str, msg: &str) -> (r: Report)
        ensures
            r@ == ReportView::failure(status, command@, msg@),
    {
        let mut line = glue(command, ": ");
        line.append(msg);
        let mut err: Vec<String> = Vec::new();
        err.push(line);
        let r = Report { status, out: Vec::new(), err };
        proof {
            assert(r@.out =~= Seq::<Seq<char>>::empty());
            assert(r@.err =~= seq![command@ + ": "@ + msg@]);
        }
        r
    }
}

} // verus!
