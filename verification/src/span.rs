//! Source positions and spans.
//!
//! A position is a 1-based (line, column) pair; columns advance by the
//! display width of the characters on the line.

use vstd::prelude::*;

verus! {

/// The mathematical value of a [`Position`]: a 1-based line and column.
pub ghost struct PosG {
    pub line: int,
    pub column: int,
}

/// The mathematical value of a [`Span`].
pub ghost struct SpanG {
    pub start: PosG,
    pub end: PosG,
}

/// A 1-based position in the source text.
#[derive(Copy, Clone, Debug, PartialEq, Eq, Structural)]
pub struct Position {
    /// The line number, starting at 1
    pub line: u32,
    /// The column number, starting at 1; columns advance by display width
    pub column: u32,
}

impl View for Position {
    type V = PosG;

    open spec fn view(&self) -> PosG {
        PosG { line: self.line as int, column: self.column as int }
    }
}

impl Position {
    /// The position of the start of a source file: line 1, column 1.
    pub fn origin() -> (p: Position)
        ensures
            p.line == 1,
            p.column == 1,
    {
        Position { line: 1, column: 1 }
    }
}

impl Default for Position {
    fn default() -> (p: Position)
        ensures
            p.line == 1,
            p.column == 1,
    {
        Position { line: 1, column: 1 }
    }
}

/// The span of source text that a token covers, as a pair of positions.
#[derive(Copy, Clone, Debug, PartialEq, Eq, Structural)]
pub struct Span {
    /// The position at which the span starts
    pub start: Position,
    /// The position just after the span's end
    pub end: Position,
}

impl View for Span {
    type V = SpanG;

    open spec fn view(&self) -> SpanG {
        SpanG { start: self.start@, end: self.end@ }
    }
}

impl Default for Span {
    fn default() -> (s: Span)
        ensures
            s.start.line == 1,
            s.start.column == 1,
            s.end.line == 1,
            s.end.column == 1,
    {
        Span {
            start: Position { line: 1, column: 1 },
            end: Position { line: 1, column: 1 },
        }
    }
}

} // verus!
