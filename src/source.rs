//! Positions in a program source and ranges between them.

use vstd::prelude::*;

verus! {

/// Place in a source: the number of characters before it, together with the
/// line (from one) and the in-line position of the character it points to.
#[derive(Clone, Copy, Debug, PartialEq, Eq, Structural)]
pub struct Pointer {
    pub index: usize,
    pub line: usize,
    pub position: usize,
}

impl Pointer {
    /// Line number, starting from one.
    pub fn line(&self) -> (r: usize)
        ensures
            r == self.line,
    {
        self.line
    }

    /// Number of the character in its line, starting from one.
    pub fn position(&self) -> (r: usize)
        ensures
            r == self.position,
    {
        self.position
    }
}

/// Range in a source: `beg` inclusive, `end` just after the last character.
#[derive(Clone, Copy, Debug, PartialEq, Eq, Structural)]
pub struct Span {
    pub beg: Pointer,
    pub end: Pointer,
}

} // verus!
