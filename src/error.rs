//! Syntax errors raised while parsing.

use vstd::prelude::*;

use crate::span::Location;

verus! {

/// Everything that can go wrong while turning text into a syntax tree.
#[derive(Debug, Clone)]
pub enum Error {
    /// An identifier production returned neither an identifier nor a boolean.
    IdentFailed { location: Location },
    /// A span whose start does not come before its end.
    InvertedSpan { first: Location, second: Location },
    /// The input does not follow the grammar at `location`.
    ParseError { msg: String, location: Location },
    /// The digits at `location` do not form a signed 32-bit integer.
    NumberFormat { text: String, location: Location },
    /// A value node was asked for a variant that it does not hold.
    WrongValueType,
}

impl Error {
    /// The location that the error points at, if it has one.
    pub open spec fn spec_location(self) -> Option<Location> {
        match self {
            Error::IdentFailed { location } => Some(location),
            Error::InvertedSpan { first, .. } => Some(first),
            Error::ParseError { location, .. } => Some(location),
            Error::NumberFormat { location, .. } => Some(location),
            Error::WrongValueType => None,
        }
    }

    pub fn location(&self) -> (r: Option<Location>)
        ensures
            r == self.spec_location(),
    {
        match self {
            Error::IdentFailed { location } => Some(*location),
            Error::InvertedSpan { first, .. } => Some(*first),
            Error::ParseError { location, .. } => Some(*location),
            Error::NumberFormat { location, .. } => Some(*location),
            Error::WrongValueType => None,
        }
    }
}

} // verus!
