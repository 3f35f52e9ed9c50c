//! Which texts name a parameter.

use vstd::prelude::*;
use crate::utils::number::{all_digits, is_digit};
use crate::utils::text::chars_of;

verus! {

/// A letter, a digit or `_`.
pub open spec fn is_name_char(c: char) -> bool {
    ('a' <= c <= 'z') || ('A' <= c <= 'Z') || is_digit(c) || c == '_'
}

/// One of the characters that alone name a special or positional parameter.
pub open spec fn is_special_char(c: char) -> bool {
    c == '$' || c == '?' || c == '*' || c == '@' || c == '#' || c == '-' || c == '!' || c == '_'
        || is_digit(c)
}

/// Whether every character may stand in a name.
pub open spec fn all_name_chars(s: Seq<char>) -> bool {
    forall|i: int| 0 <= i < s.len() ==> is_name_char(#[trigger] s[i])
}

/// A parameter's name is one special character, or a run of digits, or a
/// run of letters, digits and `_` that does not start with a digit.
pub open spec fn is_param(s: Seq<char>) -> bool {
    s.len() > 0 && ((s.len() == 1 && is_special_char(s[0])) || (is_digit(s[0]) && all_digits(s)) || (
    !is_digit(s[0]) && all_name_chars(s)))
}

/// Whether the character may stand in a name.
pub fn name_char(c: char) -> (r: bool)
    ensures
        r == is_name_char(c),
{
    (c >= 'a' && c <= 'z') || (c >= 'A' && c <= 'Z') || (c >= '0' && c <= '9') || c == '_'
}

/// Whether the character alone names a special or positional parameter.
pub fn special_char(c: char) -> (r: bool)
    ensures
        r == is_special_char(c),
{
    c == '$' || c == '?' || c == '*' || c == '@' || c == '#' || c == '-' || c == '!' || c == '_' || (c
        >= '0' && c <= '9')
}

/// Whether every character of `v` is a digit.
pub fn digits_only(v: &Vec<char>) -> (r: bool)
    ensures
        r == all_digits(v@),
{
    let mut i: usize = 0;
    while i < v.len()
        invariant
            i <= v.len(),
            forall|j: int| 0 <= j < i ==> is_digit(#[trigger] v@[j]),
        decreases v.len() - i,
    {
        if !(v[i] >= '0' && v[i] <= '9') {
            return false;
        }
        i += 1;
    }
    true
}

/// Whether every character of `v` may stand in a name.
pub fn name_chars_only(v: &Vec<char>) -> (r: bool)
    ensures
        r == all_name_chars(v@),
{
    let mut i: usize = 0;
    while i < v.len()
        invariant
            i <= v.len(),
            forall|j: int| 0 <= j < i ==> is_name_char(#[trigger] v@[j]),
        decreases v.len() - i,
    {
        if !name_char(v[i]) {
            return false;
        }
        i += 1;
    }
    true
}

/// Whether `s` names a parameter.
pub fn is_param_name(s: &str) -> (r: bool)
    ensures
        r == is_param(s@),
{
    let v = chars_of(s);
    if v.len() == 0 {
        return false;
    }
    if v.len() == 1 && special_char(v[0]) {
        return true;
    }
    if v[0] >= '0' && v[0] <= '9' {
        digits_only(&v)
    } else {
        name_chars_only(&v)
    }
}

} // verus!
