//! Source positions and ranges.
//!
//! A position is a zero-based line and character column; positions are
//! ordered lexicographically, line first. A range is a half-open span
//! between two positions.

use vstd::prelude::*;

verus! {

/// A position in a source document: zero-based line and character column.
#[derive(Clone, Copy, Debug, PartialEq, Eq, Structural)]
pub struct Position {
    pub line: u32,
    pub character: u32,
}

/// A span of source text between two positions.
#[derive(Clone, Copy, Debug, PartialEq, Eq, Structural)]
pub struct Range {
    pub start: Position,
    pub end: Position,
}

impl Position {
    /// Lexicographic order on positions: line first, then column.
    pub open spec fn is_before(self, other: Position) -> bool {
        self.line < other.line || (self.line == other.line && self.character < other.character)
    }

    /// Strictly after, the mirror of [`Position::is_before`].
    pub open spec fn is_after(self, other: Position) -> bool {
        other.is_before(self)
    }

    pub fn new(line: u32, character: u32) -> (r: Position)
        ensures
            r == (Position { line, character }),
    {
        Position { line, character }
    }

    /// Decides the lexicographic order on positions.
    pub fn before(&self, other: &Position) -> (r: bool)
        ensures
            r == self.is_before(*other),
    {
        self.line < other.line || (self.line == other.line && self.character < other.character)
    }

    /// Decides the strict reverse order on positions.
    pub fn after(&self, other: &Position) -> (r: bool)
        ensures
            r == self.is_after(*other),
    {
        other.before(self)
    }
}

/// The zero position, line 0 and column 0.
pub open spec fn origin() -> Position {
    Position { line: 0, character: 0 }
}

/// The empty range at the zero position, used for declarations that have no
/// source location of their own (builtins and the synthetic receiver).
pub open spec fn nil_range() -> Range {
    Range { start: origin(), end: origin() }
}

impl Range {
    pub fn new(start: Position, end: Position) -> (r: Range)
        ensures
            r == (Range { start, end }),
    {
        Range { start, end }
    }

    /// The empty range at the zero position.
    pub fn nil() -> (r: Range)
        ensures
            r == nil_range(),
    {
        Range { start: Position { line: 0, character: 0 }, end: Position { line: 0, character: 0 } }
    }
}

} // verus!
