//! Array literals: `(word [subscript]=word ...)`.

use vstd::prelude::*;
use crate::elements::expr::arithmetic::parser::{ch, lemma_run_skip};
use crate::elements::substitution::subscript::{parsed_subscript, Subscript, SubscriptView};
use crate::elements::word::{expanded, fields, integer_value, word_pred, Word};
use crate::error::exec::{ExecError, ExecErrorView};
use crate::error::parse::{ParseError, ParseErrorView};
use crate::feeder::{blank_pred, lemma_run_end, run_end, Feeder};
use crate::shell::{ShellView, ShellCore};
use crate::utils::text::{string_of_range, texts};

verus! {

/// An array literal: its words, and what stood where no word can.
#[derive(Debug, PartialEq, Eq)]
pub struct Array {
    /// The source text, parentheses included.
    pub text: String,
    /// The words, each with the subscript that stands before it, if any.
    pub words: Vec<(Option<Subscript>, Word)>,
    /// The characters that stand where no word can.
    pub error_strings: Vec<String>,
}

/// A word or a value with the subscript that it goes to, as plain values.
pub type Item = (Option<SubscriptView>, Seq<char>);

/// An array literal as plain values.
pub struct ArrayView {
    pub text: Seq<char>,
    pub words: Seq<Item>,
    pub error_strings: Seq<Seq<char>>,
}

/// The view of a subscript that may be missing.
pub open spec fn subscript_view(s: Option<Subscript>) -> Option<SubscriptView> {
    match s {
        Some(s) => Some(s@),
        None => None,
    }
}

/// The words of a literal as plain values.
pub open spec fn word_views(v: Seq<(Option<Subscript>, Word)>) -> Seq<Item> {
    Seq::new(v.len(), |i: int| (subscript_view(v[i].0), v[i].1@))
}

/// The values of a literal as plain values.
pub open spec fn value_views(v: Seq<(Option<Subscript>, String)>) -> Seq<Item> {
    Seq::new(v.len(), |i: int| (subscript_view(v[i].0), v[i].1@))
}

/// The subscript that the text starts with, where a `=` follows it, and
/// the length of both. A subscript that cannot be read is a failure.
pub open spec fn assigned_subscript(s: Seq<char>) -> Result<Option<(SubscriptView, int)>, ParseErrorView> {
    match parsed_subscript(s) {
        Ok(Some((sub, n))) => if ch(s, n) == '=' {
            Ok(Some((sub, n + 1)))
        } else {
            Ok(None)
        },
        Ok(None) => Ok(None),
        Err(e) => Err(e),
    }
}

/// The parenthesis depth after the character `c`.
pub open spec fn depth_after(depth: int, c: char) -> int {
    if c == '(' {
        depth + 1
    } else if c == ')' {
        depth - 1
    } else {
        depth
    }
}

/// What the items of a literal are read to: the words, the stray
/// characters, and the index after the closing parenthesis.
pub type Items = (Seq<Item>, Seq<Seq<char>>, int);

/// The words and the stray characters of a literal from `pos` on, and the
/// index after its closing parenthesis. A text that ends before it fails
/// as an unexpected end; a subscript that cannot be read fails as it did.
pub open spec fn items_from(
    s: Seq<char>,
    pos: int,
    depth: int,
    words: Seq<Item>,
    errors: Seq<Seq<char>>,
) -> Result<Items, ParseErrorView>
    decreases s.len() - pos,
{
    let p = run_end(s, pos, blank_pred());
    if pos < 0 || p < pos || p >= s.len() {
        Err(ParseErrorView::UnexpectedEof)
    } else {
        match assigned_subscript(s.skip(p)) {
            Err(e) => Err(e),
            Ok(found) => {
                let sub = match found {
                    Some((sub, _)) => Some(sub),
                    None => None,
                };
                let q = match found {
                    Some((_, n)) => p + n,
                    None => p,
                };
                let e = run_end(s, q, word_pred());
                if q < p || q > s.len() {
                    Err(ParseErrorView::UnexpectedEof)
                } else if q < e <= s.len() {
                    items_from(s, e, depth, words.push((sub, s.subrange(q, e))), errors)
                } else if q >= s.len() {
                    Err(ParseErrorView::UnexpectedEof)
                } else if s[q] == ')' && depth <= 1 {
                    Ok((words, errors, q + 1))
                } else {
                    items_from(s, q + 1, depth_after(depth, s[q]), words, errors.push(seq![s[q]]))
                }
            },
        }
    }
}

/// The literal that the text starts with, and its length. A text that does
/// not start with `(` gives nothing.
pub open spec fn parsed_array(s: Seq<char>) -> Result<Option<(ArrayView, int)>, ParseErrorView> {
    if ch(s, 0) != '(' {
        Ok(None)
    } else {
        match items_from(s, 1, 1, Seq::empty(), Seq::empty()) {
            Ok((words, errors, end)) => Ok(
                Some((ArrayView { text: s.take(end), words, error_strings: errors }, end)),
            ),
            Err(e) => Err(e),
        }
    }
}

/// Each field with the same subscript.
pub open spec fn with_subscript(sub: Option<SubscriptView>, fs: Seq<Seq<char>>) -> Seq<Item> {
    Seq::new(fs.len(), |i: int| (sub, fs[i]))
}

/// The shell and the values of the words from the `i`-th on, after `acc`:
/// each word as the numeral of its value where `as_int` holds; else as one
/// value where `as_assoc` holds; else as its fields.
pub open spec fn values_from(
    words: Seq<Item>,
    i: int,
    core: ShellView,
    as_int: bool,
    as_assoc: bool,
    acc: Seq<Item>,
) -> (ShellView, Result<Seq<Item>, ExecErrorView>)
    decreases words.len() - i,
{
    if i < 0 || i >= words.len() {
        (core, Ok(acc))
    } else {
        let (sub, w) = words[i];
        if as_int {
            let (c, r) = integer_value(core, w);
            match r {
                Ok(v) => values_from(words, i + 1, c, as_int, as_assoc, acc.push((sub, v))),
                Err(e) => (c, Err(e)),
            }
        } else if as_assoc {
            values_from(
                words,
                i + 1,
                core,
                as_int,
                as_assoc,
                acc.push((sub, expanded(core.db, w, 0))),
            )
        } else {
            values_from(
                words,
                i + 1,
                core,
                as_int,
                as_assoc,
                acc + with_subscript(sub, fields(expanded(core.db, w, 0), 0)),
            )
        }
    }
}

impl View for Array {
    type V = ArrayView;

    open spec fn view(&self) -> ArrayView {
        ArrayView {
            text: self.text@,
            words: word_views(self.words@),
            error_strings: texts(self.error_strings@),
        }
    }
}

impl ArrayView {
    /// The shell and the values of the literal. A literal with a stray
    /// character is a syntax error.
    pub open spec fn eval(self, core: ShellView, as_int: bool, as_assoc: bool) -> (
        ShellView,
        Result<Seq<Item>, ExecErrorView>,
    ) {
        if self.error_strings.len() > 0 {
            (core, Err(ExecErrorView::SyntaxError(self.error_strings.last())))
        } else {
            values_from(self.words, 0, core, as_int, as_assoc, Seq::empty())
        }
    }
}

/// A copy of the subscript, where there is one.
fn copy_subscript(s: &Option<Subscript>) -> (r: Option<Subscript>)
    ensures
        subscript_view(r) == subscript_view(*s),
{
    match s {
        Some(s) => Some(s.duplicate()),
        None => None,
    }
}

impl Array {
    /// The values of the literal, each with the subscript of its word.
    #[verifier::loop_isolation(false)]
    pub fn eval(&self, core: &mut ShellCore, as_int: bool, as_assoc: bool) -> (r: Result<
        Vec<(Option<Subscript>, String)>,
        ExecError,
    >)
        requires
            old(core).wf(),
        ensures
            final(core).wf(),
            final(core)@ == self@.eval(old(core)@, as_int, as_assoc).0,
            match r {
                Ok(v) => self@.eval(old(core)@, as_int, as_assoc).1 == Ok::<Seq<Item>, ExecErrorView>(
                    value_views(v@),
                ),
                Err(e) => self@.eval(old(core)@, as_int, as_assoc).1 == Err::<
                    Seq<Item>,
                    ExecErrorView,
                >(e@),
            },
    {
        if self.error_strings.len() > 0 {
            let c = &self.error_strings[self.error_strings.len() - 1];
            assert(texts(self.error_strings@).last() == c@);
            return Err(ExecError::SyntaxError(c.clone()));
        }
        let ghost words = word_views(self.words@);
        let ghost start = core@;
        let mut ans: Vec<(Option<Subscript>, String)> = Vec::new();
        let mut i: usize = 0;
        proof {
            assert(value_views(ans@) =~= Seq::<Item>::empty());
        }
        while i < self.words.len()
            invariant
                i <= self.words.len(),
                core.wf(),
                words == word_views(self.words@),
                values_from(words, 0, start, as_int, as_assoc, Seq::empty()) == values_from(
                    words,
                    i as int,
                    core@,
                    as_int,
                    as_assoc,
                    value_views(ans@),
                ),
            decreases self.words.len() - i,
        {
            let ghost before = value_views(ans@);
            let s = &self.words[i].0;
            let w = &self.words[i].1;
            proof {
                assert(words[i as int] == (subscript_view(*s), w@));
            }
            if as_int {
                let v = match w.eval_as_integer(core) {
                    Ok(v) => v,
                    Err(e) => {
                        return Err(e);
                    },
                };
                ans.push((copy_subscript(s), v));
                assert(value_views(ans@) =~= before.push((subscript_view(*s), v@)));
            } else if as_assoc {
                let v = w.eval_as_value(core);
                ans.push((copy_subscript(s), v));
                assert(value_views(ans@) =~= before.push((subscript_view(*s), v@)));
            } else {
                let mut fs = w.eval(core);
                let ghost ftexts = texts(fs@);
                let mut k: usize = 0;
                let n = fs.len();
                while k < n
                    invariant
                        k <= n,
                        n == fs.len(),
                        ftexts == texts(fs@),
                        value_views(ans@) == before + with_subscript(subscript_view(*s), ftexts).take(
                            k as int,
                        ),
                    decreases n - k,
                {
                    let ghost prev = value_views(ans@);
                    let f = fs[k].clone();
                    assert(ftexts[k as int] == f@);
                    ans.push((copy_subscript(s), f));
                    proof {
                        let all = with_subscript(subscript_view(*s), ftexts);
                        assert(value_views(ans@) =~= prev.push((subscript_view(*s), f@)));
                        assert(all.take(k + 1) =~= all.take(k as int).push(all[k as int]));
                        assert(value_views(ans@) =~= before + all.take(k + 1));
                    }
                    k += 1;
                }
                proof {
                    let all = with_subscript(subscript_view(*s), ftexts);
                    assert(all.take(n as int) =~= all);
                }
            }
            i += 1;
        }
        Ok(ans)
    }

    /// Reads the subscript that the text starts with, where a `=` follows
    /// it, and the `=`.
    fn eat_subscript(feeder: &mut Feeder) -> (r: Result<Option<Subscript>, ParseError>)
        requires
            old(feeder).wf(),
        ensures
            final(feeder).wf(),
            final(feeder).chars == old(feeder).chars,
            final(feeder).lineno == old(feeder).lineno,
            final(feeder).pos >= old(feeder).pos,
            match r {
                Ok(Some(s)) => assigned_subscript(old(feeder)@) == Ok::<
                    Option<(SubscriptView, int)>,
                    ParseErrorView,
                >(Some((s@, final(feeder).pos - old(feeder).pos))),
                Ok(None) => assigned_subscript(old(feeder)@) == Ok::<
                    Option<(SubscriptView, int)>,
                    ParseErrorView,
                >(None) && final(feeder).pos == old(feeder).pos,
                Err(e) => assigned_subscript(old(feeder)@) == Err::<
                    Option<(SubscriptView, int)>,
                    ParseErrorView,
                >(e@) && final(feeder).pos == old(feeder).pos,
            },
    {
        let ghost s0 = feeder@;
        let before = feeder.pos;
        match Subscript::parse(feeder) {
            Ok(Some(s)) => {
                let ghost n = feeder.pos - before;
                assert(feeder@ =~= s0.skip(n));
                match feeder.head() {
                    Some(c) => {
                        assert(c == s0[n]);
                        if c == '=' {
                            let _ = feeder.consume(1);
                            return Ok(Some(s));
                        }
                    },
                    None => {},
                }
                feeder.rewind(before);
                Ok(None)
            },
            Ok(None) => Ok(None),
            Err(e) => Err(e),
        }
    }

    /// Reads the literal that the text starts with: `(`, words between
    /// blanks, each with or without `[subscript]=` before it, and `)`.
    /// Where the text starts with none, or the reading fails, nothing is
    /// consumed.
    pub fn parse(feeder: &mut Feeder) -> (r: Result<Option<Array>, ParseError>)
        requires
            old(feeder).wf(),
        ensures
            final(feeder).wf(),
            match r {
                Ok(Some(a)) => parsed_array(old(feeder)@) matches Ok(Some((v, n))) && a@ == v && 0 <= n
                    <= old(feeder)@.len() && final(feeder)@ == old(feeder)@.skip(n),
                Ok(None) => parsed_array(old(feeder)@) == Ok::<
                    Option<(ArrayView, int)>,
                    ParseErrorView,
                >(None) && final(feeder)@ == old(feeder)@,
                Err(e) => parsed_array(old(feeder)@) == Err::<Option<(ArrayView, int)>, ParseErrorView>(
                    e@,
                ) && final(feeder)@ == old(feeder)@,
            },
    {
        let ghost s0 = feeder@;
        let start = feeder.pos;
        match feeder.head() {
            Some(c) => {
                if c != '(' {
                    return Ok(None);
                }
            },
            None => {
                return Ok(None);
            },
        }
        let _ = feeder.consume(1);
        let mut words: Vec<(Option<Subscript>, Word)> = Vec::new();
        let mut errors: Vec<String> = Vec::new();
        let mut depth: usize = 1;
        proof {
            assert(word_views(words@) =~= Seq::<Item>::empty());
            assert(texts(errors@) =~= Seq::<Seq<char>>::empty());
        }
        loop
            invariant_except_break
                items_from(s0, 1, 1, Seq::empty(), Seq::empty()) == items_from(
                    s0,
                    feeder.pos - start,
                    depth as int,
                    word_views(words@),
                    texts(errors@),
                ),
            invariant
                feeder.wf(),
                old(feeder).wf(),
                feeder.chars == old(feeder).chars,
                start == old(feeder).pos,
                s0 == old(feeder)@,
                start < feeder.pos,
                1 <= depth <= feeder.pos - start,
                ch(s0, 0) == '(',
            ensures
                items_from(s0, 1, 1, Seq::empty(), Seq::empty()) == Ok::<Items, ParseErrorView>(
                    (word_views(words@), texts(errors@), feeder.pos - start),
                ),
            decreases feeder.chars.len() - feeder.pos,
        {
            let ghost pos = feeder.pos - start;
            let ghost ws = word_views(words@);
            let ghost es = texts(errors@);
            assert(feeder@ =~= s0.skip(pos));
            let blanks = feeder.scanner_blank();
            proof {
                lemma_run_skip(s0, pos, 0, blank_pred());
            }
            let _ = feeder.consume(blanks);
            let ghost p = pos + blanks;
            assert(feeder@ =~= s0.skip(p));
            if feeder.is_empty() {
                feeder.rewind(start);
                return Err(ParseError::UnexpectedEof);
            }
            let sub = match Self::eat_subscript(feeder) {
                Ok(sub) => sub,
                Err(e) => {
                    feeder.rewind(start);
                    return Err(e);
                },
            };
            let ghost q = feeder.pos - start;
            assert(feeder@ =~= s0.skip(q));
            proof {
                lemma_run_skip(s0, q, 0, word_pred());
            }
            match Word::parse(feeder) {
                Some(w) => {
                    let ghost e = feeder.pos - start;
                    assert(w@ =~= s0.subrange(q, e));
                    words.push((sub, w));
                    assert(word_views(words@) =~= ws.push((subscript_view(sub), s0.subrange(q, e))));
                    continue;
                },
                None => {},
            }
            let c = match feeder.head() {
                Some(c) => c,
                None => {
                    feeder.rewind(start);
                    return Err(ParseError::UnexpectedEof);
                },
            };
            assert(c == s0[q]);
            let _ = feeder.consume(1);
            if c == ')' && depth <= 1 {
                break;
            }
            if c == '(' {
                depth += 1;
            } else if c == ')' {
                depth -= 1;
            }
            let mut err = String::new();
            err.push(c);
            assert(err@ =~= seq![c]);
            errors.push(err);
            assert(texts(errors@) =~= es.push(seq![c]));
        }
        let text = string_of_range(&feeder.chars, start, feeder.pos);
        proof {
            let end = feeder.pos - start;
            assert(text@ =~= s0.take(end));
            assert(feeder@ =~= s0.skip(end));
        }
        Ok(Some(Array { text, words, error_strings: errors }))
    }
}

} // verus!
