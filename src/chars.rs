//! Character classes used by the grammar, and runs of them.

use vstd::prelude::*;

verus! {

/// Whether a character has Unicode's `White_Space` property.
pub uninterp spec fn unicode_whitespace(c: char) -> bool;

/// Whether a character has Unicode's `Alphabetic` property.
pub uninterp spec fn unicode_alphabetic(c: char) -> bool;

/// Whether a character is Unicode-alphabetic or Unicode-numeric.
pub uninterp spec fn unicode_alphanumeric(c: char) -> bool;

/// Relies on `char::is_whitespace`: the answer depends on the character alone.
#[verifier::external_body]
pub(crate) fn is_whitespace(c: char) -> (r: bool)
    ensures
        r == unicode_whitespace(c),
{
    c.is_whitespace()
}

/// Relies on `char::is_alphabetic`: the answer depends on the character alone.
#[verifier::external_body]
pub(crate) fn is_alphabetic(c: char) -> (r: bool)
    ensures
        r == unicode_alphabetic(c),
{
    c.is_alphabetic()
}

/// Relies on `char::is_alphanumeric`: the answer depends on the character alone.
#[verifier::external_body]
pub(crate) fn is_alphanumeric(c: char) -> (r: bool)
    ensures
        r == unicode_alphanumeric(c),
{
    c.is_alphanumeric()
}

/// Relies on `String::push`: appends one character.
#[verifier::external_body]
pub(crate) fn push_char(s: &mut String, c: char)
    ensures
        final(s)@ == old(s)@.push(c),
{
    s.push(c)
}

/// `0` to `9`.
pub open spec fn ascii_digit(c: char) -> bool {
    48 <= (c as int) <= 57
}

/// `a` to `z` or `A` to `Z`.
pub open spec fn ascii_alpha(c: char) -> bool {
    97 <= (c as int) <= 122 || 65 <= (c as int) <= 90
}

pub open spec fn ascii_alnum(c: char) -> bool {
    ascii_digit(c) || ascii_alpha(c)
}

pub fn is_ascii_digit(c: char) -> (r: bool)
    ensures
        r == ascii_digit(c),
{
    let n = c as u32;
    48 <= n && n <= 57
}

pub fn is_ascii_alpha(c: char) -> (r: bool)
    ensures
        r == ascii_alpha(c),
{
    let n = c as u32;
    (97 <= n && n <= 122) || (65 <= n && n <= 90)
}

pub fn is_ascii_alnum(c: char) -> (r: bool)
    ensures
        r == ascii_alnum(c),
{
    is_ascii_digit(c) || is_ascii_alpha(c)
}

/// The classes of characters that the grammar consumes greedily.
pub enum CharClass {
    /// `_` or an ASCII letter or digit: the rest of an identifier.
    IdentRest,
    /// An ASCII digit.
    Digit,
    /// Unicode whitespace.
    White,
    /// Anything but a double quote: the inside of a string.
    NotQuote,
    /// `_` or a Unicode letter or digit: the rest of a word.
    WordRest,
    /// Anything but a line feed: the inside of a line.
    NotNewline,
}

pub open spec fn in_class(c: char, k: CharClass) -> bool {
    match k {
        CharClass::IdentRest => c == '_' || ascii_alnum(c),
        CharClass::Digit => ascii_digit(c),
        CharClass::White => unicode_whitespace(c),
        CharClass::NotQuote => c != '"',
        CharClass::WordRest => c == '_' || unicode_alphanumeric(c),
        CharClass::NotNewline => c != '\n',
    }
}

/// The index of the first character at or after `i` outside class `k`, or
/// the length of `s` when there is none.
pub open spec fn run_end(s: Seq<char>, i: int, k: CharClass) -> int
    decreases s.len() - i,
{
    if 0 <= i < s.len() && in_class(s[i], k) {
        run_end(s, i + 1, k)
    } else {
        i
    }
}

pub proof fn lemma_run_end_bounds(s: Seq<char>, i: int, k: CharClass)
    requires
        0 <= i <= s.len(),
    ensures
        i <= run_end(s, i, k) <= s.len(),
        run_end(s, i, k) < s.len() ==> !in_class(s[run_end(s, i, k)], k),
        forall|m: int| i <= m < run_end(s, i, k) ==> in_class(#[trigger] s[m], k),
    decreases s.len() - i,
{
    if i < s.len() && in_class(s[i], k) {
        lemma_run_end_bounds(s, i + 1, k);
    }
}

} // verus!
