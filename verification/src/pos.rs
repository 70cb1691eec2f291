//! Positions, biased positions, lengths and ranges.

use vstd::prelude::*;

verus! {

/// A position in a text: a line index and a byte offset within that line.
#[derive(Clone, Copy, Debug, PartialEq, Eq, Structural)]
pub struct Pos {
    pub line: usize,
    pub byte: usize,
}

/// The side of an inter-character boundary that a position belongs to.
#[derive(Clone, Copy, Debug, PartialEq, Eq, Structural)]
pub enum Bias {
    Before,
    After,
}

/// A position together with a bias.
#[derive(Clone, Copy, Debug, PartialEq, Eq, Structural)]
pub struct BiasedPos {
    pub pos: Pos,
    pub bias: Bias,
}

/// The extent of a span of text: the number of line breaks inside it, and the
/// number of bytes on its last line.
#[derive(Clone, Copy, Debug, PartialEq, Eq, Structural)]
pub struct Length {
    pub lines: usize,
    pub bytes: usize,
}

/// A span of text between two positions, `start <= end`.
#[derive(Clone, Copy, Debug, PartialEq, Eq, Structural)]
pub struct Range {
    pub start: Pos,
    pub end: Pos,
}

/// `a + b`, or the largest `usize` where the sum does not fit.
pub open spec fn saturating_sum(a: usize, b: usize) -> usize {
    if a + b > usize::MAX {
        usize::MAX
    } else {
        (a + b) as usize
    }
}

pub fn saturating_add(a: usize, b: usize) -> (r: usize)
    ensures
        r == saturating_sum(a, b),
{
    if b > usize::MAX - a {
        usize::MAX
    } else {
        a + b
    }
}

impl Pos {
    /// Lexicographic order on (line, byte), strict.
    pub open spec fn spec_lt(self, other: Pos) -> bool {
        self.line < other.line || (self.line == other.line && self.byte < other.byte)
    }

    /// Lexicographic order on (line, byte).
    pub open spec fn spec_le(self, other: Pos) -> bool {
        self.spec_lt(other) || self == other
    }

    /// The span from `from` to `self`, for `from <= self`.
    pub open spec fn spec_distance_from(self, from: Pos) -> Length {
        if self.line == from.line {
            Length { lines: 0, bytes: (self.byte - from.byte) as usize }
        } else {
            Length { lines: (self.line - from.line) as usize, bytes: self.byte }
        }
    }

    /// The position at which a span of extent `len` that starts at `self`
    /// ends. A sum that a `usize` cannot hold stops at the largest `usize`.
    pub open spec fn spec_offset_by(self, len: Length) -> Pos {
        if len.lines == 0 {
            Pos { line: self.line, byte: saturating_sum(self.byte, len.bytes) }
        } else {
            Pos { line: saturating_sum(self.line, len.lines), byte: len.bytes }
        }
    }

    /// The first position of a text.
    pub fn origin() -> (p: Pos)
        ensures
            p == (Pos { line: 0, byte: 0 }),
    {
        Pos { line: 0, byte: 0 }
    }

    pub fn lt(self, other: Pos) -> (b: bool)
        ensures
            b == self.spec_lt(other),
    {
        self.line < other.line || (self.line == other.line && self.byte < other.byte)
    }

    pub fn le(self, other: Pos) -> (b: bool)
        ensures
            b == self.spec_le(other),
    {
        self.line < other.line || (self.line == other.line && self.byte <= other.byte)
    }

    /// The span from `from` to `self`; the empty span where `self` lies
    /// before `from`.
    pub fn distance_from(self, from: Pos) -> (len: Length)
        ensures
            from.spec_le(self) ==> len == self.spec_distance_from(from),
            !from.spec_le(self) ==> len == (Length { lines: 0, bytes: 0 }),
    {
        if !from.le(self) {
            Length { lines: 0, bytes: 0 }
        } else if self.line == from.line {
            Length { lines: 0, bytes: self.byte - from.byte }
        } else {
            Length { lines: self.line - from.line, bytes: self.byte }
        }
    }

    /// The end of a span of extent `len` that starts at `self`.
    pub fn offset_by(self, len: Length) -> (p: Pos)
        ensures
            p == self.spec_offset_by(len),
    {
        if len.lines == 0 {
            Pos { line: self.line, byte: saturating_add(self.byte, len.bytes) }
        } else {
            Pos { line: saturating_add(self.line, len.lines), byte: len.bytes }
        }
    }
}

impl Bias {
    /// `Before` is 0 and `After` is 1.
    pub open spec fn rank(self) -> int {
        match self {
            Bias::Before => 0,
            Bias::After => 1,
        }
    }
}

impl BiasedPos {
    /// Order by position, ties broken by `Before < After`, strict.
    pub open spec fn spec_lt(self, other: BiasedPos) -> bool {
        self.pos.spec_lt(other.pos) || (self.pos == other.pos && self.bias.rank()
            < other.bias.rank())
    }

    /// Order by position, ties broken by `Before < After`.
    pub open spec fn spec_le(self, other: BiasedPos) -> bool {
        self.spec_lt(other) || self == other
    }

    pub fn lt(self, other: BiasedPos) -> (b: bool)
        ensures
            b == self.spec_lt(other),
    {
        if self.pos.lt(other.pos) {
            true
        } else if self.pos == other.pos {
            match (self.bias, other.bias) {
                (Bias::Before, Bias::After) => true,
                _ => false,
            }
        } else {
            false
        }
    }

    pub fn le(self, other: BiasedPos) -> (b: bool)
        ensures
            b == self.spec_le(other),
    {
        self.lt(other) || self == other
    }
}

impl Range {
    /// The range from `start` to `end`.
    pub fn new(start: Pos, end: Pos) -> (r: Range)
        requires
            start.spec_le(end),
        ensures
            r.start == start,
            r.end == end,
    {
        Range { start, end }
    }

    pub open spec fn spec_is_empty(self) -> bool {
        self.start == self.end
    }

    pub fn is_empty(self) -> (b: bool)
        ensures
            b == self.spec_is_empty(),
    {
        self.start == self.end
    }
}

/// The order on positions is total: of two positions one is below the other,
/// or they are equal; and it is transitive.
pub proof fn pos_order_total(a: Pos, b: Pos, c: Pos)
    ensures
        a.spec_lt(b) || a == b || b.spec_lt(a),
        !(a.spec_lt(b) && b.spec_lt(a)),
        a.spec_le(b) && b.spec_le(c) ==> a.spec_le(c),
{
}

/// The order on biased positions is total and transitive.
pub proof fn biased_pos_order_total(a: BiasedPos, b: BiasedPos, c: BiasedPos)
    ensures
        a.spec_lt(b) || a == b || b.spec_lt(a),
        !(a.spec_lt(b) && b.spec_lt(a)),
        a.spec_le(b) && b.spec_le(c) ==> a.spec_le(c),
        a.spec_lt(b) && b.spec_le(c) ==> a.spec_lt(c),
        a.spec_le(b) && b.spec_lt(c) ==> a.spec_lt(c),
{
}

/// Moving from `from` by the span up to `to` arrives at `to`.
pub proof fn offset_by_distance(from: Pos, to: Pos)
    requires
        from.spec_le(to),
    ensures
        from.spec_offset_by(to.spec_distance_from(from)) == to,
{
}

/// Moving by a span never goes back and keeps the order of two starting
/// points, as long as the line numbers stay within a `usize`.
pub proof fn offset_by_monotone(a: Pos, b: Pos, len: Length)
    requires
        a.spec_le(b),
        b.line + len.lines <= usize::MAX,
    ensures
        a.spec_le(a.spec_offset_by(len)),
        a.spec_offset_by(len).spec_le(b.spec_offset_by(len)),
{
}

} // verus!
