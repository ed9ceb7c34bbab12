//! A character source that knows the location of the next character.

use vstd::prelude::*;

use crate::span::{loc_lt, Location};

verus! {

/// The location reached after consuming the first `k` characters of `s`:
/// a newline moves to column 1 of the next row, any other character one
/// column to the right.
pub open spec fn loc_at(s: Seq<char>, k: int) -> Location
    decreases k,
{
    if k <= 0 {
        Location { row: 1, col: 1 }
    } else {
        let p = loc_at(s, k - 1);
        if s[k - 1] == '\n' {
            Location { row: (p.row + 1) as u16, col: 1 }
        } else {
            Location { row: p.row, col: (p.col + 1) as u16 }
        }
    }
}

/// `a` is `b` or comes before it.
pub open spec fn loc_le(a: Location, b: Location) -> bool {
    a == b || loc_lt(a, b)
}

/// Inputs whose every location fits in 16-bit rows and columns.
pub open spec fn fits_locations(s: Seq<char>) -> bool {
    s.len() < u16::MAX
}

proof fn lemma_loc_bounds(s: Seq<char>, k: int)
    requires
        0 <= k < u16::MAX,
    ensures
        1 <= loc_at(s, k).row <= k + 1,
        1 <= loc_at(s, k).col <= k + 1,
    decreases k,
{
    if k > 0 {
        lemma_loc_bounds(s, k - 1);
    }
}

proof fn lemma_loc_step(s: Seq<char>, k: int)
    requires
        0 <= k,
        k + 1 < u16::MAX,
    ensures
        loc_lt(loc_at(s, k), loc_at(s, k + 1)),
{
    lemma_loc_bounds(s, k);
}

/// Consuming more characters always moves strictly forward.
pub proof fn lemma_loc_increasing(s: Seq<char>, i: int, j: int)
    requires
        0 <= i < j < u16::MAX,
    ensures
        loc_lt(loc_at(s, i), loc_at(s, j)),
    decreases j - i,
{
    lemma_loc_step(s, j - 1);
    if i < j - 1 {
        lemma_loc_increasing(s, i, j - 1);
    }
}

/// Locations never move back: after consuming `j >= i` characters the
/// location is at or after the one reached after `i` (and `eat_char` keeps
/// the position, hence the location, once the input is exhausted).
pub proof fn location_monotone(s: Seq<char>, i: int, j: int)
    requires
        fits_locations(s),
        0 <= i <= j <= s.len(),
    ensures
        loc_le(loc_at(s, i), loc_at(s, j)),
{
    if i < j {
        lemma_loc_increasing(s, i, j);
    }
}

/// The next character of `s` after the first `k`, if any.
pub open spec fn peek_at(s: Seq<char>, k: int) -> Option<char> {
    if 0 <= k < s.len() {
        Some(s[k])
    } else {
        None
    }
}

/// Where one step from `k` leads: one further, but never past the end.
pub open spec fn step(s: Seq<char>, k: int) -> int {
    if k < s.len() {
        k + 1
    } else {
        k
    }
}

/// A character source that can be read one character at a time and knows
/// the location of the next character.
pub trait SpanningRead {
    /// The characters of the whole input.
    spec fn chars(&self) -> Seq<char>;

    /// How many characters have been consumed.
    spec fn pos(&self) -> int;

    /// The source's state is consistent with its input.
    spec fn wf(&self) -> bool;

    /// The location of the next character; one past the end once the input
    /// is exhausted.
    fn location(&self) -> (r: Location)
        requires
            self.wf(),
        ensures
            r == loc_at(self.chars(), self.pos());

    /// Consumes and returns the next character, or returns `None` at the end.
    fn next_char(&mut self) -> (r: Option<char>)
        requires
            old(self).wf(),
        ensures
            r == peek_at(old(self).chars(), old(self).pos()),
            final(self).wf(),
            final(self).chars() == old(self).chars(),
            final(self).pos() == step(old(self).chars(), old(self).pos()),
            fits_locations(final(self).chars()),
            0 <= final(self).pos() <= final(self).chars().len();

    /// The next character, without consuming it.
    fn peek_char(&self) -> (r: Option<char>)
        requires
            self.wf(),
        ensures
            r == peek_at(self.chars(), self.pos());

    /// Consumes the next character; does nothing at the end of the input.
    fn eat_char(&mut self)
        requires
            old(self).wf(),
        ensures
            final(self).wf(),
            final(self).chars() == old(self).chars(),
            final(self).pos() == step(old(self).chars(), old(self).pos()),
            fits_locations(final(self).chars()),
            0 <= final(self).pos() <= final(self).chars().len();

    /// True iff every character has been consumed.
    fn eof(&self) -> (r: bool)
        requires
            self.wf(),
        ensures
            r == (self.pos() == self.chars().len());
}

/// Reads a whole input by characters (not bytes) and tracks the location of
/// the next one.
pub struct SpanningReader {
    input_chars: Vec<char>,
    location: Location,
    index: usize,
}

impl SpanningReader {
    pub fn new(input: &str) -> (r: SpanningReader)
        requires
            fits_locations(input@),
        ensures
            r.chars() == input@,
            r.pos() == 0,
            r.wf(),
    {
        let mut input_chars: Vec<char> = Vec::new();
        for ch in it: input.chars()
            invariant
                it.seq() == input@,
                input_chars@ == it.seq().take(it.index() as int),
        {
            input_chars.push(ch);
        }
        assert(input_chars@ =~= input@);
        SpanningReader { input_chars, location: Location { row: 1, col: 1 }, index: 0 }
    }

    /// The index of the next character.
    pub fn index(&self) -> (r: usize)
        requires
            self.wf(),
        ensures
            r == self.pos(),
    {
        self.index
    }
}

impl SpanningRead for SpanningReader {
    closed spec fn chars(&self) -> Seq<char> {
        self.input_chars@
    }

    closed spec fn pos(&self) -> int {
        self.index as int
    }

    closed spec fn wf(&self) -> bool {
        &&& fits_locations(self.input_chars@)
        &&& self.index <= self.input_chars@.len()
        &&& self.location == loc_at(self.input_chars@, self.index as int)
    }

    fn location(&self) -> (r: Location) {
        self.location
    }

    fn next_char(&mut self) -> (r: Option<char>) {
        let ch = self.peek_char();
        self.eat_char();
        ch
    }

    fn peek_char(&self) -> (r: Option<char>) {
        if self.index >= self.input_chars.len() {
            None
        } else {
            Some(self.input_chars[self.index])
        }
    }

    fn eat_char(&mut self) {
        if self.index < self.input_chars.len() {
            let ch = self.input_chars[self.index];
            proof {
                lemma_loc_bounds(self.input_chars@, self.index as int);
            }
            let mut loc = self.location;
            if ch == '\n' {
                loc.next_row();
            } else {
                loc.next_col();
            }
            self.location = loc;
            self.index = self.index + 1;
        }
        proof {
            lemma_loc_bounds(self.input_chars@, self.index as int);
        }
    }

    fn eof(&self) -> (r: bool) {
        self.index >= self.input_chars.len()
    }
}

} // verus!
