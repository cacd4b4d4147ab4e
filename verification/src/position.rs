//! Source positions of query elements.
use vstd::prelude::*;

verus! {

/// A one-based line and column in a query document.
#[derive(Clone, Copy, Debug, PartialEq, Eq, Structural)]
pub struct Position {
    pub line: usize,
    pub column: usize,
}

impl Position {
    /// Creates the position at `line` and `column`.
    pub fn new(line: usize, column: usize) -> (p: Position)
        ensures
            p.line == line,
            p.column == column,
    {
        Position { line, column }
    }

    /// Whether `self` comes before `other` or is the same place: lines are
    /// compared first, columns second.
    pub open spec fn precedes(self, other: Position) -> bool {
        self.line < other.line || (self.line == other.line && self.column <= other.column)
    }

    /// The earlier of two positions.
    pub open spec fn spec_earliest(self, other: Position) -> Position {
        if self.precedes(other) {
            self
        } else {
            other
        }
    }

    /// The later of two positions.
    pub open spec fn spec_latest(self, other: Position) -> Position {
        if self.precedes(other) {
            other
        } else {
            self
        }
    }

    /// Returns the earlier of two positions.
    pub fn earliest(self, other: Position) -> (p: Position)
        ensures
            p == self.spec_earliest(other),
    {
        if self.line < other.line || (self.line == other.line && self.column <= other.column) {
            self
        } else {
            other
        }
    }

    /// Returns the later of two positions.
    pub fn latest(self, other: Position) -> (p: Position)
        ensures
            p == self.spec_latest(other),
    {
        if self.line < other.line || (self.line == other.line && self.column <= other.column) {
            other
        } else {
            self
        }
    }
}

} // verus!
