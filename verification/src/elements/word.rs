//! Words: text in which `$name` stands for what the parameter reads as.

use vstd::prelude::*;
use crate::elements::expr::arithmetic::parser::{ch, scan_run, RunKind};
use crate::elements::expr::arithmetic::{parsed_expr, ArithmeticExpr};
use crate::error::exec::{ExecError, ExecErrorView};
use crate::feeder::{blank_pred, Feeder};
use crate::shell::{ShellView, ShellCore};
use crate::feeder::{is_name_start, lemma_run_end, name_pred, run_end};
use crate::shell::database::{DataBase, DbView};
use crate::utils::param_name::name_char;
use crate::utils::text::{chars_of, string_of_range, texts};

verus! {

/// The text from `pos` on with each `$name` replaced by what the variable
/// reads as; every other character stands for itself.
pub open spec fn expanded(db: DbView, s: Seq<char>, pos: int) -> Seq<char>
    decreases s.len() - pos,
{
    if pos < 0 || pos >= s.len() {
        Seq::empty()
    } else if s[pos] == '$' && is_name_start(ch(s, pos + 1)) {
        let end = run_end(s, pos + 1, name_pred());
        if pos < end <= s.len() {
            db.variable(s.subrange(pos + 1, end)) + expanded(db, s, end)
        } else {
            Seq::empty()
        }
    } else {
        seq![s[pos]] + expanded(db, s, pos + 1)
    }
}

/// The word as one value: each `$name` replaced by what the variable reads
/// as.
pub fn expand_variables(text: &str, db: &DataBase) -> (r: String)
    requires
        db.wf(),
    ensures
        r@ == expanded(db@, text@, 0),
{
    let v = chars_of(text);
    let mut out = String::new();
    let mut i: usize = 0;
    proof {
        assert(out@ + expanded(db@, v@, 0) =~= expanded(db@, v@, 0));
    }
    while i < v.len()
        invariant
            i <= v.len(),
            v@ == text@,
            db.wf(),
            expanded(db@, v@, 0) == out@ + expanded(db@, v@, i as int),
        decreases v.len() - i,
    {
        let ghost before = out@;
        let c = v[i];
        let next = if i + 1 < v.len() {
            v[i + 1]
        } else {
            '\0'
        };
        if c == '$' && name_char(next) && !(next >= '0' && next <= '9') {
            let end = scan_run(&v, i + 1, RunKind::NameChar);
            proof {
                assert(name_pred()(v@[i + 1]));
                lemma_run_end(v@, i + 2, name_pred());
            }
            let name = string_of_range(&v, i + 1, end);
            let value = db.get_variable(name.as_str());
            out.append(value.as_str());
            proof {
                assert(before + (value@ + expanded(db@, v@, end as int)) =~= out@ + expanded(
                    db@,
                    v@,
                    end as int,
                ));
            }
            i = end;
        } else {
            out.push(c);
            proof {
                assert(before + (seq![c] + expanded(db@, v@, i + 1)) =~= out@ + expanded(
                    db@,
                    v@,
                    i + 1,
                ));
            }
            i += 1;
        }
    }
    proof {
        assert(out@ + Seq::<char>::empty() =~= out@);
    }
    out
}

/// The test for a character of a word: no blank and no parenthesis.
pub open spec fn word_pred() -> spec_fn(char) -> bool {
    |c: char| !(c == ' ' || c == '\t' || c == '\n' || c == '(' || c == ')')
}

/// The test for a character of a field: no blank.
pub open spec fn field_pred() -> spec_fn(char) -> bool {
    |c: char| !(c == ' ' || c == '\t' || c == '\n')
}

/// The fields of the text from `pos` on: its runs of characters that are
/// no blanks.
pub open spec fn fields(s: Seq<char>, pos: int) -> Seq<Seq<char>>
    decreases s.len() - pos,
{
    let p = run_end(s, pos, blank_pred());
    if pos < 0 || p < pos || p >= s.len() {
        Seq::empty()
    } else {
        let end = run_end(s, p, field_pred());
        if p < end <= s.len() {
            seq![s.subrange(p, end)] + fields(s, end)
        } else {
            Seq::empty()
        }
    }
}

/// The numeral of the value of the word read as an arithmetic expression.
/// A word that is more than an expression is a syntax error.
pub open spec fn integer_value(core: ShellView, text: Seq<char>) -> (
    ShellView,
    Result<Seq<char>, ExecErrorView>,
) {
    match parsed_expr(text) {
        Some((e, n)) => if n == text.len() {
            (core.with_db(e.eval(core.db).0), e.eval(core.db).1)
        } else {
            (core, Err(ExecErrorView::SyntaxError(text)))
        },
        None => (core, Err(ExecErrorView::SyntaxError(text))),
    }
}

/// A word: a text in which `$name` stands for what the parameter reads as.
#[derive(Debug, PartialEq, Eq)]
pub struct Word {
    pub text: String,
}

impl View for Word {
    type V = Seq<char>;

    open spec fn view(&self) -> Seq<char> {
        self.text@
    }
}

impl Word {
    fn in_word(c: char) -> (r: bool)
        ensures
            r == word_pred()(c),
    {
        !(c == ' ' || c == '\t' || c == '\n' || c == '(' || c == ')')
    }

    /// Reads the word that the text starts with: its characters up to the
    /// first blank or parenthesis. Where there is none, nothing is read.
    pub fn parse(feeder: &mut Feeder) -> (r: Option<Word>)
        requires
            old(feeder).wf(),
        ensures
            final(feeder).wf(),
            final(feeder).chars == old(feeder).chars,
            final(feeder).lineno == old(feeder).lineno,
            ({
                let n = run_end(old(feeder)@, 0, word_pred());
                &&& 0 <= n <= old(feeder)@.len()
                &&& final(feeder)@ == old(feeder)@.skip(n)
                &&& final(feeder).pos == old(feeder).pos + n
                &&& match r {
                    Some(w) => n > 0 && w@ == old(feeder)@.take(n),
                    None => n == 0,
                }
            }),
    {
        let ghost s = feeder@;
        let total = feeder.len();
        let mut n: usize = 0;
        while n < total && Self::in_word(feeder.chars[feeder.pos + n])
            invariant
                n <= total,
                feeder.wf(),
                total == s.len(),
                s == feeder@,
                run_end(s, 0, word_pred()) == run_end(s, n as int, word_pred()),
            decreases total - n,
        {
            assert(s[n as int] == feeder.chars[feeder.pos + n]);
            n += 1;
        }
        proof {
            if n < total {
                assert(s[n as int] == feeder.chars[feeder.pos + n]);
            }
        }
        if n == 0 {
            assert(feeder@.skip(0) =~= feeder@);
            return None;
        }
        let text = feeder.consume(n);
        Some(Word { text })
    }

    /// The word as one value.
    pub fn eval_as_value(&self, core: &ShellCore) -> (r: String)
        requires
            core.wf(),
        ensures
            r@ == expanded(core@.db, self@, 0),
    {
        expand_variables(self.text.as_str(), &core.db)
    }

    /// The fields of the word after expansion.
    pub fn eval(&self, core: &ShellCore) -> (r: Vec<String>)
        requires
            core.wf(),
        ensures
            texts(r@) == fields(expanded(core@.db, self@, 0), 0),
    {
        let value = self.eval_as_value(core);
        let v = chars_of(value.as_str());
        let ghost s = v@;
        let mut out: Vec<String> = Vec::new();
        let mut i: usize = 0;
        proof {
            assert(texts(out@) + fields(s, 0) =~= fields(s, 0));
        }
        loop
            invariant_except_break
                i <= v.len(),
                fields(s, 0) == texts(out@) + fields(s, i as int),
            invariant
                s == v@,
            ensures
                texts(out@) == fields(s, 0),
            decreases v.len() - i,
        {
            let ghost before = texts(out@);
            let p = scan_run(&v, i, RunKind::Blank);
            if p >= v.len() {
                assert(before + Seq::<Seq<char>>::empty() =~= before);
                break;
            }
            let mut end: usize = p;
            while end < v.len() && !(v[end] == ' ' || v[end] == '\t' || v[end] == '\n')
                invariant
                    p <= end <= v.len(),
                    s == v@,
                    run_end(s, p as int, field_pred()) == run_end(s, end as int, field_pred()),
                decreases v.len() - end,
            {
                assert(field_pred()(s[end as int]));
                end += 1;
            }
            proof {
                if end < v.len() {
                    assert(!field_pred()(s[end as int]));
                }
                lemma_run_end(s, i as int, blank_pred());
                assert(!blank_pred()(s[p as int]));
                assert(field_pred()(s[p as int]));
                if end == p {
                    assert(run_end(s, p as int, field_pred()) == run_end(s, p + 1, field_pred()));
                    lemma_run_end(s, p + 1, field_pred());
                }
            }
            let field = string_of_range(&v, p, end);
            out.push(field);
            proof {
                assert(texts(out@) =~= before.push(field@));
                assert(before + (seq![field@] + fields(s, end as int)) =~= texts(out@) + fields(
                    s,
                    end as int,
                ));
            }
            i = end;
        }
        out
    }

    /// The numeral of the value of the word read as an arithmetic
    /// expression.
    pub fn eval_as_integer(&self, core: &mut ShellCore) -> (r: Result<String, ExecError>)
        requires
            old(core).wf(),
        ensures
            final(core).wf(),
            final(core)@ == integer_value(old(core)@, self@).0,
            match r {
                Ok(s) => integer_value(old(core)@, self@).1 == Ok::<Seq<char>, ExecErrorView>(s@),
                Err(e) => integer_value(old(core)@, self@).1 == Err::<Seq<char>, ExecErrorView>(e@),
            },
    {
        let mut f = Feeder::new(self.text.as_str());
        match ArithmeticExpr::parse(&mut f) {
            Ok(e) => {
                if !f.is_empty() {
                    return Err(ExecError::SyntaxError(self.text.clone()));
                }
                e.eval(core)
            },
            Err(_) => Err(ExecError::SyntaxError(self.text.clone())),
        }
    }
}

} // verus!
