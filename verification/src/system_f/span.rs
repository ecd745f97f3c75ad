//! Source positions carried by terms and reported with errors.

use vstd::prelude::*;

verus! {

/// A position in the source text.
#[derive(Clone, Copy, Debug, PartialEq, Eq, PartialOrd, Hash, Structural, Default)]
pub struct Location {
    pub line: u32,
    pub col: u32,
    pub abs: u32,
}

/// The stretch of source text that a term was read from.
#[derive(Clone, Copy, Debug, PartialEq, Eq, PartialOrd, Hash, Structural, Default)]
pub struct Span {
    pub start: Location,
    pub end: Location,
}

impl Location {
    pub fn new(line: u32, col: u32, abs: u32) -> (r: Location)
        ensures
            r == (Location { line, col, abs }),
    {
        Location { line, col, abs }
    }
}

impl Span {
    pub fn new(start: Location, end: Location) -> (r: Span)
        ensures
            r == (Span { start, end }),
    {
        Span { start, end }
    }

    /// The empty span at the origin, for terms built by hand.
    pub fn dummy() -> (r: Span)
        ensures
            r == (Span {
                start: Location { line: 0, col: 0, abs: 0 },
                end: Location { line: 0, col: 0, abs: 0 },
            }),
    {
        Span { start: Location { line: 0, col: 0, abs: 0 }, end: Location { line: 0, col: 0, abs: 0 } }
    }
}

} // verus!
