//! A cursor over source text: what the parsers read from.

use vstd::prelude::*;
use crate::utils::number::is_digit;
use crate::utils::param_name::{is_name_char, name_char};
use crate::utils::text::{chars_of, string_of_range};

verus! {

/// A text and the place up to which it was consumed.
#[derive(Debug)]
pub struct Feeder {
    /// The whole text.
    pub chars: Vec<char>,
    /// How much of it was consumed.
    pub pos: usize,
    /// The line that the text stands on.
    pub lineno: usize,
}

/// The index at which the run of characters that satisfy `pred`, starting
/// at `pos`, ends.
pub open spec fn run_end(s: Seq<char>, pos: int, pred: spec_fn(char) -> bool) -> int
    decreases s.len() - pos,
{
    if 0 <= pos < s.len() && pred(s[pos]) {
        run_end(s, pos + 1, pred)
    } else {
        pos
    }
}

/// A run ends inside the text, at or after its start.
pub proof fn lemma_run_end(s: Seq<char>, pos: int, pred: spec_fn(char) -> bool)
    requires
        0 <= pos <= s.len(),
    ensures
        pos <= run_end(s, pos, pred) <= s.len(),
        forall|i: int| pos <= i < run_end(s, pos, pred) ==> pred(#[trigger] s[i]),
        run_end(s, pos, pred) < s.len() ==> !pred(s[run_end(s, pos, pred)]),
    decreases s.len() - pos,
{
    if pos < s.len() && pred(s[pos]) {
        lemma_run_end(s, pos + 1, pred);
    }
}

/// Whether a name may start with `c`: a letter or `_`.
pub open spec fn is_name_start(c: char) -> bool {
    is_name_char(c) && !is_digit(c)
}

/// The test for a character of a name.
pub open spec fn name_pred() -> spec_fn(char) -> bool {
    |c: char| is_name_char(c)
}

/// The test for a digit.
pub open spec fn digit_pred() -> spec_fn(char) -> bool {
    |c: char| is_digit(c)
}

/// The test for a blank: a space, a tab or a newline.
pub open spec fn blank_pred() -> spec_fn(char) -> bool {
    |c: char| c == ' ' || c == '\t' || c == '\n'
}

/// The length of the name that `s` starts with; 0 where it starts with none.
pub open spec fn name_len(s: Seq<char>) -> int {
    if s.len() > 0 && is_name_start(s[0]) {
        run_end(s, 0, name_pred())
    } else {
        0
    }
}

impl Feeder {
    /// The place lies inside the text.
    pub open spec fn wf(&self) -> bool {
        self.pos <= self.chars.len()
    }

    /// The text that is left.
    pub open spec fn view(&self) -> Seq<char> {
        self.chars@.skip(self.pos as int)
    }

    /// A cursor at the start of `s`, on line 1.
    pub fn new(s: &str) -> (r: Self)
        ensures
            r.wf(),
            r@ == s@,
            r.lineno == 1,
    {
        let r = Feeder { chars: chars_of(s), pos: 0, lineno: 1 };
        assert(r@ =~= s@);
        r
    }

    /// Adds a further line to the end of the text. What was consumed stays
    /// consumed.
    pub fn add_line(&mut self, line: &str)
        requires
            old(self).wf(),
        ensures
            final(self).wf(),
            final(self)@ == old(self)@ + line@,
            final(self).pos == old(self).pos,
            final(self).lineno == old(self).lineno,
    {
        let more = chars_of(line);
        let mut i: usize = 0;
        while i < more.len()
            invariant
                i <= more.len(),
                more@ == line@,
                self.pos == old(self).pos,
                self.lineno == old(self).lineno,
                self.pos <= old(self).chars.len(),
                self.chars@ == old(self).chars@ + more@.take(i as int),
            decreases more.len() - i,
        {
            self.chars.push(more[i]);
            i += 1;
            assert(self.chars@ =~= old(self).chars@ + more@.take(i as int));
        }
        assert(more@.take(more.len() as int) =~= more@);
        assert(self@ =~= old(self)@ + line@);
    }

    /// A copy of the characters that are left.
    pub fn rest(&self) -> (r: Vec<char>)
        requires
            self.wf(),
        ensures
            r@ == self@,
    {
        let mut out: Vec<char> = Vec::new();
        let mut i: usize = self.pos;
        while i < self.chars.len()
            invariant
                self.pos <= i <= self.chars.len(),
                out@ == self.chars@.subrange(self.pos as int, i as int),
            decreases self.chars.len() - i,
        {
            out.push(self.chars[i]);
            i += 1;
            assert(out@ =~= self.chars@.subrange(self.pos as int, i as int));
        }
        assert(out@ =~= self@);
        out
    }

    /// The number of characters that are left.
    pub fn len(&self) -> (n: usize)
        requires
            self.wf(),
        ensures
            n == self@.len(),
    {
        self.chars.len() - self.pos
    }

    /// Whether nothing is left.
    pub fn is_empty(&self) -> (r: bool)
        requires
            self.wf(),
        ensures
            r == (self@.len() == 0),
    {
        self.pos == self.chars.len()
    }

    /// Whether the text that is left starts with `s`.
    pub fn starts_with(&self, s: &str) -> (r: bool)
        requires
            self.wf(),
        ensures
            r == s@.is_prefix_of(self@),
    {
        let want = chars_of(s);
        if want.len() > self.chars.len() - self.pos {
            return false;
        }
        let mut i: usize = 0;
        while i < want.len()
            invariant
                i <= want.len(),
                self.wf(),
                want.len() <= self.chars.len() - self.pos,
                want@ == s@,
                forall|j: int| 0 <= j < i ==> want@[j] == self@[j],
            decreases want.len() - i,
        {
            if want[i] != self.chars[self.pos + i] {
                assert(self@[i as int] != s@[i as int]);
                return false;
            }
            i += 1;
        }
        assert(s@ =~= self@.subrange(0, s@.len() as int));
        true
    }

    /// Whether the text that is left starts with one of `vs`.
    pub fn starts_withs(&self, vs: &[&str]) -> (r: bool)
        requires
            self.wf(),
        ensures
            r == exists|i: int| 0 <= i < vs.len() && (#[trigger] vs[i])@.is_prefix_of(self@),
    {
        let mut i: usize = 0;
        while i < vs.len()
            invariant
                i <= vs.len(),
                self.wf(),
                forall|j: int| 0 <= j < i ==> !(#[trigger] vs[j])@.is_prefix_of(self@),
            decreases vs.len() - i,
        {
            if self.starts_with(vs[i]) {
                return true;
            }
            i += 1;
        }
        false
    }

    /// Takes the first `n` characters of the text that is left.
    pub fn consume(&mut self, n: usize) -> (r: String)
        requires
            old(self).wf(),
            n <= old(self)@.len(),
        ensures
            final(self).wf(),
            r@ == old(self)@.take(n as int),
            final(self)@ == old(self)@.skip(n as int),
            final(self).lineno == old(self).lineno,
            final(self).chars == old(self).chars,
            final(self).pos == old(self).pos + n,
    {
        let r = string_of_range(&self.chars, self.pos, self.pos + n);
        self.pos = self.pos + n;
        proof {
            assert(r@ =~= old(self)@.take(n as int));
            assert(self@ =~= old(self)@.skip(n as int));
        }
        r
    }

    /// Goes back to an earlier place in the text.
    pub fn rewind(&mut self, pos: usize)
        requires
            old(self).wf(),
            pos <= old(self).pos,
        ensures
            final(self).wf(),
            final(self).chars == old(self).chars,
            final(self).pos == pos,
            final(self).lineno == old(self).lineno,
    {
        self.pos = pos;
    }

    /// The first character of the text that is left.
    pub fn head(&self) -> (r: Option<char>)
        requires
            self.wf(),
        ensures
            match r {
                Some(c) => self@.len() > 0 && c == self@[0],
                None => self@.len() == 0,
            },
    {
        if self.pos < self.chars.len() {
            Some(self.chars[self.pos])
        } else {
            None
        }
    }

    /// The length of the run of blanks that the text starts with.
    pub fn scanner_blank(&self) -> (n: usize)
        requires
            self.wf(),
        ensures
            n == run_end(self@, 0, blank_pred()),
            n <= self@.len(),
    {
        let total = self.chars.len() - self.pos;
        let mut i: usize = 0;
        while i < total && (self.chars[self.pos + i] == ' ' || self.chars[self.pos + i] == '\t'
            || self.chars[self.pos + i] == '\n')
            invariant
                i <= total,
                total == self.chars.len() - self.pos,
                self.wf(),
                run_end(self@, 0, blank_pred()) == run_end(self@, i as int, blank_pred()),
            decreases total - i,
        {
            assert(self@[i as int] == self.chars[self.pos + i]);
            assert(blank_pred()(self@[i as int]));
            i += 1;
        }
        proof {
            if i < total {
                assert(self@[i as int] == self.chars[self.pos + i]);
                assert(!blank_pred()(self@[i as int]));
            }
        }
        i
    }

    /// The length of the name that the text starts with.
    pub fn scanner_name(&self) -> (n: usize)
        requires
            self.wf(),
        ensures
            n == name_len(self@),
            n <= self@.len(),
    {
        if self.pos == self.chars.len() {
            return 0;
        }
        let first = self.chars[self.pos];
        assert(self@[0] == first);
        if !name_char(first) || (first >= '0' && first <= '9') {
            return 0;
        }
        let mut i: usize = 0;
        let total = self.chars.len() - self.pos;
        while i < total && name_char(self.chars[self.pos + i])
            invariant
                i <= total,
                total == self.chars.len() - self.pos,
                self.wf(),
                run_end(self@, 0, name_pred()) == run_end(self@, i as int, name_pred()),
            decreases total - i,
        {
            assert(self@[i as int] == self.chars[self.pos + i]);
            assert(name_pred()(self@[i as int]));
            i += 1;
        }
        proof {
            if i < total {
                assert(self@[i as int] == self.chars[self.pos + i]);
            }
        }
        i
    }
}

} // verus!
