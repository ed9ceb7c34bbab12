//! Source positions and half-open ranges over them.

use vstd::prelude::*;

use crate::error::Error;

verus! {

/// A 1-based (row, column) position in the input.
#[derive(Debug, Copy, Clone, PartialEq, Eq, Structural, PartialOrd, Ord, Hash)]
pub struct Location {
    pub row: u16,
    pub col: u16,
}

/// Strict lexicographic order on (row, column).
pub open spec fn loc_lt(a: Location, b: Location) -> bool {
    a.row < b.row || (a.row == b.row && a.col < b.col)
}

impl Location {
    pub fn new(row: u16, col: u16) -> (r: Location)
        ensures
            r.row == row,
            r.col == col,
    {
        Location { row, col }
    }

    pub fn row(&self) -> (r: u16)
        ensures
            r == self.row,
    {
        self.row
    }

    pub fn col(&self) -> (r: u16)
        ensures
            r == self.col,
    {
        self.col
    }

    /// Moves to the first column of the following row.
    pub fn next_row(&mut self)
        requires
            old(self).row < u16::MAX,
        ensures
            final(self).row == old(self).row + 1,
            final(self).col == 1,
    {
        self.row = self.row + 1;
        self.col = 1;
    }

    /// Moves one column to the right.
    pub fn next_col(&mut self)
        requires
            old(self).col < u16::MAX,
        ensures
            final(self).row == old(self).row,
            final(self).col == old(self).col + 1,
    {
        self.col = self.col + 1;
    }

    /// True iff `self` comes strictly before `other`.
    pub fn precedes(&self, other: &Location) -> (r: bool)
        ensures
            r == loc_lt(*self, *other),
    {
        self.row < other.row || (self.row == other.row && self.col < other.col)
    }
}

} // verus!

verus! {

/// A non-empty half-open range `[start, end)` of locations. `end` is one past
/// the last character and may lie just past the end of the input.
#[derive(Debug, Copy, Clone)]
pub struct Span {
    start: Location,
    end: Location,
}

impl Span {
    #[verifier::type_invariant]
    spec fn ordered(self) -> bool {
        loc_lt(self.start, self.end)
    }

    pub closed spec fn spec_start(self) -> Location {
        self.start
    }

    pub closed spec fn spec_end(self) -> Location {
        self.end
    }

    /// Builds `[start, end)`; fails unless `start` comes strictly before `end`.
    pub fn new(start: Location, end: Location) -> (r: Result<Span, Error>)
        ensures
            r is Ok <==> loc_lt(start, end),
            r matches Ok(s) ==> s.spec_start() == start && s.spec_end() == end,
            r matches Err(e) ==> e == (Error::InvertedSpan { first: start, second: end }),
    {
        if start.precedes(&end) {
            Ok(Span { start, end })
        } else {
            Err(Error::InvertedSpan { first: start, second: end })
        }
    }

    pub fn start(&self) -> (r: Location)
        ensures
            r == self.spec_start(),
    {
        self.start
    }

    /// The end; it always lies strictly after the start.
    pub fn end(&self) -> (r: Location)
        ensures
            r == self.spec_end(),
            loc_lt(self.spec_start(), r),
    {
        proof {
            use_type_invariant(self);
        }
        self.end
    }
}

} // verus!
