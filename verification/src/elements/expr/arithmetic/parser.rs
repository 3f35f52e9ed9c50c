//! From source text to tokens. Blanks separate tokens; a number is a run of
//! digits; a name is a run of letters, digits and `_`, with or without a `$`
//! before it; parentheses and the two branches of `?:` hold token lists of
//! their own; an operator is the longest that matches. The text ends where
//! no token starts.

use vstd::prelude::*;
use crate::elements::expr::arithmetic::elem::{
    elem_views,
    ArithElem,
    AssignOp,
    BinaryOp,
    ElemView,
    UnaryOp,
};
use crate::feeder::{blank_pred, digit_pred, is_name_start, lemma_run_end, name_pred, run_end};
use crate::utils::number::{is_digit, parse_i128, parse_spec};
use crate::utils::param_name::name_char;
use crate::utils::text::string_of_range;

verus! {

/// The character at index `i`, or a NUL beyond the text.
pub open spec fn ch(s: Seq<char>, i: int) -> char {
    if 0 <= i < s.len() {
        s[i]
    } else {
        '\0'
    }
}

/// The operator that the characters `c0 c1 c2` start with, and its width.
/// `+` and `-` are signs unless an operand stands before them.
pub open spec fn operator_for(c0: char, c1: char, c2: char, prev_operand: bool) -> Option<
    (ElemView, int),
> {
    if c0 == '<' && c1 == '<' && c2 == '=' {
        Some((ElemView::AssignOp(AssignOp::Shl), 3))
    } else if c0 == '>' && c1 == '>' && c2 == '=' {
        Some((ElemView::AssignOp(AssignOp::Shr), 3))
    } else if c0 == '&' && c1 == '&' {
        Some((ElemView::BinaryOp(BinaryOp::And), 2))
    } else if c0 == '|' && c1 == '|' {
        Some((ElemView::BinaryOp(BinaryOp::Or), 2))
    } else if c0 == '=' && c1 == '=' {
        Some((ElemView::BinaryOp(BinaryOp::Eq), 2))
    } else if c0 == '!' && c1 == '=' {
        Some((ElemView::BinaryOp(BinaryOp::Ne), 2))
    } else if c0 == '<' && c1 == '=' {
        Some((ElemView::BinaryOp(BinaryOp::Le), 2))
    } else if c0 == '>' && c1 == '=' {
        Some((ElemView::BinaryOp(BinaryOp::Ge), 2))
    } else if c0 == '<' && c1 == '<' {
        Some((ElemView::BinaryOp(BinaryOp::Shl), 2))
    } else if c0 == '>' && c1 == '>' {
        Some((ElemView::BinaryOp(BinaryOp::Shr), 2))
    } else if c0 == '+' && c1 == '=' {
        Some((ElemView::AssignOp(AssignOp::Add), 2))
    } else if c0 == '-' && c1 == '=' {
        Some((ElemView::AssignOp(AssignOp::Sub), 2))
    } else if c0 == '*' && c1 == '=' {
        Some((ElemView::AssignOp(AssignOp::Mul), 2))
    } else if c0 == '/' && c1 == '=' {
        Some((ElemView::AssignOp(AssignOp::Div), 2))
    } else if c0 == '%' && c1 == '=' {
        Some((ElemView::AssignOp(AssignOp::Rem), 2))
    } else if c0 == '&' && c1 == '=' {
        Some((ElemView::AssignOp(AssignOp::And), 2))
    } else if c0 == '^' && c1 == '=' {
        Some((ElemView::AssignOp(AssignOp::Xor), 2))
    } else if c0 == '|' && c1 == '=' {
        Some((ElemView::AssignOp(AssignOp::Or), 2))
    } else if c0 == '+' {
        Some(
            (
                if prev_operand {
                    ElemView::BinaryOp(BinaryOp::Add)
                } else {
                    ElemView::UnaryOp(UnaryOp::Plus)
                },
                1,
            ),
        )
    } else if c0 == '-' {
        Some(
            (
                if prev_operand {
                    ElemView::BinaryOp(BinaryOp::Sub)
                } else {
                    ElemView::UnaryOp(UnaryOp::Minus)
                },
                1,
            ),
        )
    } else if c0 == '*' {
        Some((ElemView::BinaryOp(BinaryOp::Mul), 1))
    } else if c0 == '/' {
        Some((ElemView::BinaryOp(BinaryOp::Div), 1))
    } else if c0 == '%' {
        Some((ElemView::BinaryOp(BinaryOp::Rem), 1))
    } else if c0 == '<' {
        Some((ElemView::BinaryOp(BinaryOp::Lt), 1))
    } else if c0 == '>' {
        Some((ElemView::BinaryOp(BinaryOp::Gt), 1))
    } else if c0 == '&' {
        Some((ElemView::BinaryOp(BinaryOp::BitAnd), 1))
    } else if c0 == '^' {
        Some((ElemView::BinaryOp(BinaryOp::BitXor), 1))
    } else if c0 == '|' {
        Some((ElemView::BinaryOp(BinaryOp::BitOr), 1))
    } else if c0 == '!' {
        Some((ElemView::UnaryOp(UnaryOp::Not), 1))
    } else if c0 == '~' {
        Some((ElemView::UnaryOp(UnaryOp::BitNot), 1))
    } else if c0 == '=' {
        Some((ElemView::AssignOp(AssignOp::Assign), 1))
    } else if c0 == ',' {
        Some((ElemView::BinaryOp(BinaryOp::Comma), 1))
    } else {
        None
    }
}

/// A token before the tokens that follow it.
pub open spec fn followed(e: ElemView, rest: Option<(Seq<ElemView>, int)>) -> Option<
    (Seq<ElemView>, int),
> {
    match rest {
        Some((ts, end)) => Some((seq![e] + ts, end)),
        None => None,
    }
}

/// The tokens that the text holds from `pos` on, and the index at which
/// they end: that of the first character, past blanks, that starts no
/// token. `None` where a number does not fit, a parenthesis stays open or a
/// `?` has no `:`.
pub open spec fn tokens_from(s: Seq<char>, pos: int, prev_operand: bool) -> Option<
    (Seq<ElemView>, int),
>
    decreases s.len() - pos,
{
    let p = run_end(s, pos, blank_pred());
    if pos < 0 || p < pos || p >= s.len() {
        Some((Seq::empty(), p))
    } else if is_digit(s[p]) {
        let end = run_end(s, p, digit_pred());
        match parse_spec(s.subrange(p, end), i128::MIN as int, i128::MAX as int) {
            Ok(n) => if p < end <= s.len() {
                followed(ElemView::Integer(n as i128), tokens_from(s, end, true))
            } else {
                None
            },
            Err(_) => None,
        }
    } else if is_name_start(s[p]) {
        let end = run_end(s, p, name_pred());
        if p < end <= s.len() {
            followed(ElemView::Name(s.subrange(p, end)), tokens_from(s, end, true))
        } else {
            None
        }
    } else if s[p] == '$' && is_name_start(ch(s, p + 1)) {
        let end = run_end(s, p + 1, name_pred());
        if p < end <= s.len() {
            followed(ElemView::Name(s.subrange(p + 1, end)), tokens_from(s, end, true))
        } else {
            None
        }
    } else if s[p] == '(' {
        match tokens_from(s, p + 1, false) {
            Some((inner, q)) => if p < q < s.len() && s[q] == ')' {
                followed(ElemView::InParen(inner), tokens_from(s, q + 1, true))
            } else {
                None
            },
            None => None,
        }
    } else if s[p] == '?' {
        match tokens_from(s, p + 1, false) {
            Some((yes, q)) => if p < q < s.len() && s[q] == ':' {
                match tokens_from(s, q + 1, false) {
                    Some((no, end)) => Some((seq![ElemView::Ternary(yes, no)], end)),
                    None => None,
                }
            } else {
                None
            },
            None => None,
        }
    } else {
        match operator_for(s[p], ch(s, p + 1), ch(s, p + 2), prev_operand) {
            Some((e, w)) => if w >= 1 && p + w <= s.len() {
                followed(e, tokens_from(s, p + w, false))
            } else {
                None
            },
            None => Some((Seq::empty(), p)),
        }
    }
}

/// The tokens of a reading; none where it failed.
pub open spec fn found(r: Option<(Seq<ElemView>, int)>) -> Seq<ElemView> {
    match r {
        Some((ts, _)) => ts,
        None => Seq::empty(),
    }
}

/// A run in a text without its first `k` characters ends where the run in
/// the whole text ends, `k` earlier.
pub proof fn lemma_run_skip(s: Seq<char>, k: int, pos: int, pred: spec_fn(char) -> bool)
    requires
        0 <= k <= s.len(),
        0 <= pos <= s.len() - k,
    ensures
        run_end(s.skip(k), pos, pred) + k == run_end(s, pos + k, pred),
    decreases s.len() - k - pos,
{
    if pos < s.len() - k && pred(s.skip(k)[pos]) {
        lemma_run_skip(s, k, pos + 1, pred);
    }
}

/// The tokens of a text without its first `k` characters are the tokens of
/// the whole text from `k` on, with every index `k` lower.
pub proof fn lemma_tokens_skip(s: Seq<char>, k: int, pos: int, prev_operand: bool)
    requires
        0 <= k <= s.len(),
        0 <= pos <= s.len() - k,
    ensures
        match tokens_from(s.skip(k), pos, prev_operand) {
            Some((ts, end)) => tokens_from(s, pos + k, prev_operand) == Some((ts, end + k)),
            None => tokens_from(s, pos + k, prev_operand) is None,
        },
    decreases s.len() - k - pos,
{
    let t = s.skip(k);
    let p = run_end(t, pos, blank_pred());
    lemma_run_skip(s, k, pos, blank_pred());
    lemma_run_end(t, pos, blank_pred());
    if p >= t.len() {
    } else {
        assert(t[p] == s[p + k]);
        assert(ch(t, p + 1) == ch(s, p + k + 1));
        assert(ch(t, p + 2) == ch(s, p + k + 2));
        if is_digit(t[p]) {
            let end = run_end(t, p, digit_pred());
            lemma_run_skip(s, k, p, digit_pred());
            lemma_run_end(t, p, digit_pred());
            assert(t.subrange(p, end) =~= s.subrange(p + k, end + k));
            if p < end {
                lemma_tokens_skip(s, k, end, true);
            }
        } else if is_name_start(t[p]) {
            let end = run_end(t, p, name_pred());
            lemma_run_skip(s, k, p, name_pred());
            lemma_run_end(t, p, name_pred());
            assert(t.subrange(p, end) =~= s.subrange(p + k, end + k));
            if p < end {
                lemma_tokens_skip(s, k, end, true);
            }
        } else if t[p] == '$' && is_name_start(ch(t, p + 1)) {
            let end = run_end(t, p + 1, name_pred());
            lemma_run_skip(s, k, p + 1, name_pred());
            lemma_run_end(t, p + 1, name_pred());
            assert(t.subrange(p + 1, end) =~= s.subrange(p + 1 + k, end + k));
            if p < end {
                lemma_tokens_skip(s, k, end, true);
            }
        } else if t[p] == '(' {
            lemma_tokens_skip(s, k, p + 1, false);
            match tokens_from(t, p + 1, false) {
                Some((inner, q)) => {
                    if p < q < t.len() {
                        assert(t[q] == s[q + k]);
                        lemma_tokens_skip(s, k, q + 1, true);
                    }
                },
                None => {},
            }
        } else if t[p] == '?' {
            lemma_tokens_skip(s, k, p + 1, false);
            match tokens_from(t, p + 1, false) {
                Some((yes, q)) => {
                    if p < q < t.len() {
                        assert(t[q] == s[q + k]);
                        lemma_tokens_skip(s, k, q + 1, false);
                    }
                },
                None => {},
            }
        } else {
            match operator_for(t[p], ch(t, p + 1), ch(t, p + 2), prev_operand) {
                Some((e, w)) => {
                    if w >= 1 && p + w <= t.len() {
                        lemma_tokens_skip(s, k, p + w, false);
                    }
                },
                None => {},
            }
        }
    }
}

/// The character `k` places after index `p`, or a NUL beyond the text.
fn char_after(v: &Vec<char>, p: usize, k: usize) -> (c: char)
    requires
        p < v.len(),
    ensures
        c == ch(v@, p + k),
{
    if k < v.len() - p {
        v[p + k]
    } else {
        '\0'
    }
}

fn name_start(c: char) -> (r: bool)
    ensures
        r == is_name_start(c),
{
    name_char(c) && !(c >= '0' && c <= '9')
}

/// The kinds of runs that the tokenizer skips or collects.
#[derive(Clone, Copy, Debug, PartialEq, Eq, Structural)]
pub enum RunKind {
    Blank,
    Digit,
    NameChar,
}

/// The test for a character of a run of the kind.
pub open spec fn kind_pred(kind: RunKind) -> spec_fn(char) -> bool {
    match kind {
        RunKind::Blank => blank_pred(),
        RunKind::Digit => digit_pred(),
        RunKind::NameChar => name_pred(),
    }
}

fn in_run(kind: RunKind, c: char) -> (r: bool)
    ensures
        r == kind_pred(kind)(c),
{
    match kind {
        RunKind::Blank => c == ' ' || c == '\t' || c == '\n',
        RunKind::Digit => c >= '0' && c <= '9',
        RunKind::NameChar => name_char(c),
    }
}

/// The index at which the run of `kind` that starts at `pos` ends.
pub fn scan_run(v: &Vec<char>, pos: usize, kind: RunKind) -> (end: usize)
    requires
        pos <= v.len(),
    ensures
        end == run_end(v@, pos as int, kind_pred(kind)),
        pos <= end <= v.len(),
{
    let mut i: usize = pos;
    while i < v.len() && in_run(kind, v[i])
        invariant
            pos <= i <= v.len(),
            run_end(v@, pos as int, kind_pred(kind)) == run_end(v@, i as int, kind_pred(kind)),
        decreases v.len() - i,
    {
        i += 1;
    }
    i
}

fn operator_of(c0: char, c1: char, c2: char, prev_operand: bool) -> (r: Option<(ArithElem, usize)>)
    ensures
        match r {
            Some((e, w)) => operator_for(c0, c1, c2, prev_operand) == Some((e@, w as int)) && 1 <= w
                <= 3 && (w >= 2 ==> c1 != '\0') && (w >= 3 ==> c2 != '\0'),
            None => operator_for(c0, c1, c2, prev_operand) is None,
        },
{
    if c0 == '<' && c1 == '<' && c2 == '=' {
        Some((ArithElem::AssignOp(AssignOp::Shl), 3))
    } else if c0 == '>' && c1 == '>' && c2 == '=' {
        Some((ArithElem::AssignOp(AssignOp::Shr), 3))
    } else if c0 == '&' && c1 == '&' {
        Some((ArithElem::BinaryOp(BinaryOp::And), 2))
    } else if c0 == '|' && c1 == '|' {
        Some((ArithElem::BinaryOp(BinaryOp::Or), 2))
    } else if c0 == '=' && c1 == '=' {
        Some((ArithElem::BinaryOp(BinaryOp::Eq), 2))
    } else if c0 == '!' && c1 == '=' {
        Some((ArithElem::BinaryOp(BinaryOp::Ne), 2))
    } else if c0 == '<' && c1 == '=' {
        Some((ArithElem::BinaryOp(BinaryOp::Le), 2))
    } else if c0 == '>' && c1 == '=' {
        Some((ArithElem::BinaryOp(BinaryOp::Ge), 2))
    } else if c0 == '<' && c1 == '<' {
        Some((ArithElem::BinaryOp(BinaryOp::Shl), 2))
    } else if c0 == '>' && c1 == '>' {
        Some((ArithElem::BinaryOp(BinaryOp::Shr), 2))
    } else if c0 == '+' && c1 == '=' {
        Some((ArithElem::AssignOp(AssignOp::Add), 2))
    } else if c0 == '-' && c1 == '=' {
        Some((ArithElem::AssignOp(AssignOp::Sub), 2))
    } else if c0 == '*' && c1 == '=' {
        Some((ArithElem::AssignOp(AssignOp::Mul), 2))
    } else if c0 == '/' && c1 == '=' {
        Some((ArithElem::AssignOp(AssignOp::Div), 2))
    } else if c0 == '%' && c1 == '=' {
        Some((ArithElem::AssignOp(AssignOp::Rem), 2))
    } else if c0 == '&' && c1 == '=' {
        Some((ArithElem::AssignOp(AssignOp::And), 2))
    } else if c0 == '^' && c1 == '=' {
        Some((ArithElem::AssignOp(AssignOp::Xor), 2))
    } else if c0 == '|' && c1 == '=' {
        Some((ArithElem::AssignOp(AssignOp::Or), 2))
    } else if c0 == '+' {
        if prev_operand {
            Some((ArithElem::BinaryOp(BinaryOp::Add), 1))
        } else {
            Some((ArithElem::UnaryOp(UnaryOp::Plus), 1))
        }
    } else if c0 == '-' {
        if prev_operand {
            Some((ArithElem::BinaryOp(BinaryOp::Sub), 1))
        } else {
            Some((ArithElem::UnaryOp(UnaryOp::Minus), 1))
        }
    } else if c0 == '*' {
        Some((ArithElem::BinaryOp(BinaryOp::Mul), 1))
    } else if c0 == '/' {
        Some((ArithElem::BinaryOp(BinaryOp::Div), 1))
    } else if c0 == '%' {
        Some((ArithElem::BinaryOp(BinaryOp::Rem), 1))
    } else if c0 == '<' {
        Some((ArithElem::BinaryOp(BinaryOp::Lt), 1))
    } else if c0 == '>' {
        Some((ArithElem::BinaryOp(BinaryOp::Gt), 1))
    } else if c0 == '&' {
        Some((ArithElem::BinaryOp(BinaryOp::BitAnd), 1))
    } else if c0 == '^' {
        Some((ArithElem::BinaryOp(BinaryOp::BitXor), 1))
    } else if c0 == '|' {
        Some((ArithElem::BinaryOp(BinaryOp::BitOr), 1))
    } else if c0 == '!' {
        Some((ArithElem::UnaryOp(UnaryOp::Not), 1))
    } else if c0 == '~' {
        Some((ArithElem::UnaryOp(UnaryOp::BitNot), 1))
    } else if c0 == '=' {
        Some((ArithElem::AssignOp(AssignOp::Assign), 1))
    } else if c0 == ',' {
        Some((ArithElem::BinaryOp(BinaryOp::Comma), 1))
    } else {
        None
    }
}

/// Puts a token at the end of the list.
fn push_elem(out: &mut Vec<ArithElem>, e: ArithElem)
    ensures
        elem_views(final(out)@) == elem_views(old(out)@).push(e@),
{
    out.push(e);
    assert(elem_views(out@) =~= elem_views(old(out)@).push(e@));
}

/// What `read_tokens` promises for a reading that started at `pos`.
pub open spec fn reading_matches(
    s: Seq<char>,
    pos: int,
    prev_operand: bool,
    before: Seq<ElemView>,
    after: Seq<ElemView>,
    r: Option<usize>,
) -> bool {
    match r {
        Some(end) => tokens_from(s, pos, prev_operand) matches Some((ts, e)) && e == end && after
            == before + ts && pos <= end <= s.len(),
        None => tokens_from(s, pos, prev_operand) is None,
    }
}

/// What reading one token leads to.
pub enum Step {
    /// A token was read; the reading goes on at the index, after an operand
    /// or not.
    Next(usize, bool),
    /// The tokens end at the index.
    Stop(usize),
    /// The text cannot be read.
    Fail,
}

/// What `read_one` promises for a reading that started at `pos`: the
/// tokens from `pos` on are the token that was read and the tokens from
/// where the reading goes on; or they end; or there are none.
pub open spec fn step_matches(
    s: Seq<char>,
    pos: int,
    prev_operand: bool,
    before: Seq<ElemView>,
    after: Seq<ElemView>,
    r: Step,
) -> bool {
    match r {
        Step::Next(next, prev) => pos < next <= s.len() && after.len() == before.len() + 1
            && after.drop_last() == before && tokens_from(s, pos, prev_operand) == followed(
            after.last(),
            tokens_from(s, next as int, prev),
        ),
        Step::Stop(end) => tokens_from(s, pos, prev_operand) matches Some((ts, e)) && e == end
            && after == before + ts && pos <= end <= s.len(),
        Step::Fail => tokens_from(s, pos, prev_operand) is None,
    }
}

/// Reads the tokens that the text holds from `pos` on, puts them at the end
/// of `out`, and returns the index at which they end.
pub fn read_tokens(v: &Vec<char>, pos: usize, prev_operand: bool, out: &mut Vec<ArithElem>) -> (r:
    Option<usize>)
    requires
        pos <= v.len(),
    ensures
        reading_matches(
            v@,
            pos as int,
            prev_operand,
            elem_views(old(out)@),
            elem_views(final(out)@),
            r,
        ),
    decreases v.len() - pos, 2nat,
{
    let ghost s = v@;
    let ghost before = elem_views(out@);
    let ghost mut added: Seq<ElemView> = Seq::empty();
    let mut p: usize = pos;
    let mut prev: bool = prev_operand;
    let mut result: Option<usize> = None;
    proof {
        assert(before + added =~= before);
        match tokens_from(s, pos as int, prev_operand) {
            Some((ts, e)) => {
                assert(added + ts =~= ts);
            },
            None => {},
        }
    }
    loop
        invariant_except_break
            pos <= p <= v.len(),
            elem_views(out@) == before + added,
            match tokens_from(s, p as int, prev) {
                Some((ts, e)) => tokens_from(s, pos as int, prev_operand) == Some((added + ts, e)),
                None => tokens_from(s, pos as int, prev_operand) is None,
            },
        invariant
            s == v@,
            pos <= v.len(),
        ensures
            reading_matches(s, pos as int, prev_operand, before, elem_views(out@), result),
        decreases v.len() - p,
    {
        let ghost sofar = elem_views(out@);
        match read_one(v, p, prev, out) {
            Step::Next(next, after_operand) => {
                proof {
                    let e = elem_views(out@).last();
                    assert(elem_views(out@) =~= sofar.push(e));
                    assert(before + added.push(e) =~= elem_views(out@));
                    match tokens_from(s, next as int, after_operand) {
                        Some((ts, end)) => {
                            assert(added + (seq![e] + ts) =~= added.push(e) + ts);
                        },
                        None => {},
                    }
                    added = added.push(e);
                }
                p = next;
                prev = after_operand;
            },
            Step::Stop(end) => {
                proof {
                    let ts = found(tokens_from(s, p as int, prev));
                    assert(before + (added + ts) =~= (before + added) + ts);
                }
                result = Some(end);
                break;
            },
            Step::Fail => {
                result = None;
                break;
            },
        }
    }
    result
}

/// Reads the token that the text holds at `pos`, past blanks, and puts it
/// at the end of `out`.
fn read_one(v: &Vec<char>, pos: usize, prev_operand: bool, out: &mut Vec<ArithElem>) -> (r: Step)
    requires
        pos <= v.len(),
    ensures
        step_matches(
            v@,
            pos as int,
            prev_operand,
            elem_views(old(out)@),
            elem_views(final(out)@),
            r,
        ),
    decreases v.len() - pos, 1nat,
{
    let ghost before = elem_views(out@);
    let p = scan_run(v, pos, RunKind::Blank);
    if p >= v.len() {
        assert(before + Seq::<ElemView>::empty() =~= before);
        return Step::Stop(p);
    }
    let c = v[p];
    if c >= '0' && c <= '9' {
        read_number(v, pos, p, prev_operand, out)
    } else if name_start(c) {
        read_name(v, pos, p, p, prev_operand, out)
    } else if c == '$' && name_start(char_after(v, p, 1)) {
        read_name(v, pos, p, p + 1, prev_operand, out)
    } else if c == '(' {
        read_paren(v, pos, p, prev_operand, out)
    } else if c == '?' {
        read_ternary(v, pos, p, prev_operand, out)
    } else {
        read_operator(v, pos, p, prev_operand, out)
    }
}

/// Reads the number that starts at `p`.
fn read_number(v: &Vec<char>, pos: usize, p: usize, prev_operand: bool, out: &mut Vec<ArithElem>) -> (r:
    Step)
    requires
        pos <= p < v.len(),
        p == run_end(v@, pos as int, blank_pred()),
        is_digit(v@[p as int]),
    ensures
        step_matches(
            v@,
            pos as int,
            prev_operand,
            elem_views(old(out)@),
            elem_views(final(out)@),
            r,
        ),
{
    let ghost s = v@;
    let ghost before = elem_views(out@);
    let end = scan_run(v, p, RunKind::Digit);
    let text = string_of_range(v, p, end);
    let n = match parse_i128(text.as_str()) {
        Ok(n) => n,
        Err(_) => {
            return Step::Fail;
        },
    };
    proof {
        assert(digit_pred()(s[p as int]));
        lemma_run_end(s, p + 1, digit_pred());
    }
    push_elem(out, ArithElem::Integer(n));
    assert(elem_views(out@).drop_last() =~= before);
    Step::Next(end, true)
}

/// Reads the name whose characters start at `from`, with or without a `$`
/// before them at `p`.
fn read_name(
    v: &Vec<char>,
    pos: usize,
    p: usize,
    from: usize,
    prev_operand: bool,
    out: &mut Vec<ArithElem>,
) -> (r: Step)
    requires
        pos <= p < v.len(),
        p == run_end(v@, pos as int, blank_pred()),
        !is_digit(v@[p as int]),
        (from == p && is_name_start(v@[p as int])) || (from == p + 1 && !is_name_start(v@[p as int])
            && v@[p as int] == '$' && is_name_start(ch(v@, p + 1))),
    ensures
        step_matches(
            v@,
            pos as int,
            prev_operand,
            elem_views(old(out)@),
            elem_views(final(out)@),
            r,
        ),
{
    let ghost s = v@;
    let ghost before = elem_views(out@);
    let end = scan_run(v, from, RunKind::NameChar);
    let name = string_of_range(v, from, end);
    proof {
        assert(name_pred()(s[from as int]));
        lemma_run_end(s, from + 1, name_pred());
    }
    push_elem(out, ArithElem::Name(name));
    assert(elem_views(out@).drop_last() =~= before);
    Step::Next(end, true)
}

/// Reads the expression in parentheses that starts at `p`.
fn read_paren(v: &Vec<char>, pos: usize, p: usize, prev_operand: bool, out: &mut Vec<ArithElem>) -> (r:
    Step)
    requires
        pos <= p < v.len(),
        p == run_end(v@, pos as int, blank_pred()),
        v@[p as int] == '(',
    ensures
        step_matches(
            v@,
            pos as int,
            prev_operand,
            elem_views(old(out)@),
            elem_views(final(out)@),
            r,
        ),
    decreases v.len() - pos, 0nat,
{
    let ghost s = v@;
    let ghost before = elem_views(out@);
    let mut inner: Vec<ArithElem> = Vec::new();
    assert(elem_views(inner@) =~= Seq::<ElemView>::empty());
    let q = match read_tokens(v, p + 1, false, &mut inner) {
        Some(q) => q,
        None => {
            return Step::Fail;
        },
    };
    if q >= v.len() || v[q] != ')' {
        return Step::Fail;
    }
    let ghost inner_views = elem_views(inner@);
    assert(inner_views =~= found(tokens_from(s, p + 1, false)));
    push_elem(out, ArithElem::InParen(inner));
    assert(elem_views(out@).drop_last() =~= before);
    Step::Next(q + 1, true)
}

/// Reads the two branches of the ternary operator whose `?` stands at `p`.
/// No token follows them.
fn read_ternary(v: &Vec<char>, pos: usize, p: usize, prev_operand: bool, out: &mut Vec<ArithElem>) -> (r:
    Step)
    requires
        pos <= p < v.len(),
        p == run_end(v@, pos as int, blank_pred()),
        v@[p as int] == '?',
    ensures
        step_matches(
            v@,
            pos as int,
            prev_operand,
            elem_views(old(out)@),
            elem_views(final(out)@),
            r,
        ),
    decreases v.len() - pos, 0nat,
{
    let ghost s = v@;
    let ghost before = elem_views(out@);
    let mut yes: Vec<ArithElem> = Vec::new();
    assert(elem_views(yes@) =~= Seq::<ElemView>::empty());
    let q = match read_tokens(v, p + 1, false, &mut yes) {
        Some(q) => q,
        None => {
            return Step::Fail;
        },
    };
    if q >= v.len() || v[q] != ':' {
        return Step::Fail;
    }
    let mut no: Vec<ArithElem> = Vec::new();
    assert(elem_views(no@) =~= Seq::<ElemView>::empty());
    let end = match read_tokens(v, q + 1, false, &mut no) {
        Some(end) => end,
        None => {
            return Step::Fail;
        },
    };
    let ghost yes_views = elem_views(yes@);
    let ghost no_views = elem_views(no@);
    assert(yes_views =~= found(tokens_from(s, p + 1, false)));
    assert(no_views =~= found(tokens_from(s, q + 1, false)));
    push_elem(out, ArithElem::Ternary(yes, no));
    assert(before.push(ElemView::Ternary(yes_views, no_views)) =~= before + seq![
        ElemView::Ternary(yes_views, no_views),
    ]);
    Step::Stop(end)
}

/// Reads the operator that starts at `p`; where no operator starts there,
/// the tokens end.
fn read_operator(v: &Vec<char>, pos: usize, p: usize, prev_operand: bool, out: &mut Vec<ArithElem>) -> (r:
    Step)
    requires
        pos <= p < v.len(),
        p == run_end(v@, pos as int, blank_pred()),
        !is_digit(v@[p as int]),
        !is_name_start(v@[p as int]),
        !(v@[p as int] == '$' && is_name_start(ch(v@, p + 1))),
        v@[p as int] != '(',
        v@[p as int] != '?',
    ensures
        step_matches(
            v@,
            pos as int,
            prev_operand,
            elem_views(old(out)@),
            elem_views(final(out)@),
            r,
        ),
{
    let ghost before = elem_views(out@);
    match operator_of(v[p], char_after(v, p, 1), char_after(v, p, 2), prev_operand) {
        Some((e, w)) => {
            push_elem(out, e);
            assert(elem_views(out@).drop_last() =~= before);
            Step::Next(p + w, false)
        },
        None => {
            assert(before + Seq::<ElemView>::empty() =~= before);
            Step::Stop(p)
        },
    }
}

} // verus!
