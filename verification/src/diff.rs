//! Edits of a text, their effect on positions, and the operation list that
//! tells the per-line state which lines came and went.

use vstd::prelude::*;
use crate::pos::{Length, Pos, Range};
use crate::text::{spec_in_text, Text};
use crate::wrap::spec_starts_char;

verus! {

/// One operation of a diff, by its extent.
#[derive(Clone, Copy, Debug, PartialEq, Eq, Structural)]
pub enum OpInfo {
    Retain(Length),
    Delete(Length),
    Insert(Length),
}

/// A list of operations that walks a text from its first position: each
/// keeps a span, removes one, or inserts one at the place reached.
#[derive(Debug)]
pub struct Diff {
    pub ops: Vec<OpInfo>,
}

/// The replacement of one span of a text.
#[derive(Debug)]
pub struct Edit {
    pub start: Pos,
    pub end: Pos,
    pub text: Text,
}

/// Where a position goes that stands exactly where text is inserted: behind
/// the insertion (`InsertBefore`: the text comes before it) or in front.
#[derive(Clone, Copy, Debug, PartialEq, Eq, Structural)]
pub enum ApplyDiffMode {
    InsertBefore,
    InsertAfter,
}

impl View for Diff {
    type V = Seq<OpInfo>;

    open spec fn view(&self) -> Seq<OpInfo> {
        self.ops@
    }
}

impl Length {
    pub open spec fn spec_is_zero(self) -> bool {
        self.lines == 0 && self.bytes == 0
    }

    pub fn is_zero(self) -> (b: bool)
        ensures
            b == self.spec_is_zero(),
    {
        self.lines == 0 && self.bytes == 0
    }
}

impl Length {
    /// Order by line breaks, then by bytes.
    pub open spec fn spec_le(self, other: Length) -> bool {
        self.lines < other.lines || (self.lines == other.lines && self.bytes <= other.bytes)
    }

    /// What is left of `self` behind a span of extent `other <= self` at its
    /// start.
    pub open spec fn spec_minus(self, other: Length) -> Length {
        if self.lines == other.lines {
            Length { lines: 0, bytes: (self.bytes - other.bytes) as usize }
        } else {
            Length { lines: (self.lines - other.lines) as usize, bytes: self.bytes }
        }
    }

    pub fn le(self, other: Length) -> (b: bool)
        ensures
            b == self.spec_le(other),
    {
        self.lines < other.lines || (self.lines == other.lines && self.bytes <= other.bytes)
    }

    /// What is left of `self` behind a span of extent `other` at its start.
    pub fn minus(self, other: Length) -> (r: Length)
        requires
            other.spec_le(self),
        ensures
            r == self.spec_minus(other),
    {
        if self.lines == other.lines {
            Length { lines: 0, bytes: self.bytes - other.bytes }
        } else {
            Length { lines: self.lines - other.lines, bytes: self.bytes }
        }
    }
}

/// Where a position stands after the operations from `i` on, when it lies
/// `distance` behind the place that the walk has reached in the old text,
/// which is `diffed` in the new text. A kept span that ends at or before the
/// position moves both on; a removed span brings the position nearer, down
/// to the place reached; an inserted span moves the place reached on, unless
/// the position stands exactly there and the mode is `InsertAfter`.
pub open spec fn spec_rebase(ops: Seq<OpInfo>, i: int, diffed: Pos, distance: Length, mode: ApplyDiffMode) -> Pos
    decreases ops.len() - i,
{
    if i < 0 || i >= ops.len() {
        diffed.spec_offset_by(distance)
    } else {
        match ops[i] {
            OpInfo::Retain(l) => if l.spec_le(distance) {
                spec_rebase(ops, i + 1, diffed.spec_offset_by(l), distance.spec_minus(l), mode)
            } else {
                diffed.spec_offset_by(distance)
            },
            OpInfo::Delete(l) => spec_rebase(
                ops,
                i + 1,
                diffed,
                if l.spec_le(distance) { distance.spec_minus(l) } else { Length { lines: 0, bytes: 0 } },
                mode,
            ),
            OpInfo::Insert(l) => if distance.spec_is_zero() && mode == ApplyDiffMode::InsertAfter {
                diffed
            } else {
                spec_rebase(ops, i + 1, diffed.spec_offset_by(l), distance, mode)
            },
        }
    }
}

impl Pos {
    /// Where `self` stands after the diff.
    pub open spec fn spec_apply_diff(self, ops: Seq<OpInfo>, mode: ApplyDiffMode) -> Pos {
        spec_rebase(ops, 0, Pos { line: 0, byte: 0 }, Length { lines: self.line, bytes: self.byte }, mode)
    }

    /// Rebases a position onto the text after `diff`.
    pub fn apply_diff(self, diff: &Diff, mode: ApplyDiffMode) -> (q: Pos)
        ensures
            q == self.spec_apply_diff(diff@, mode),
    {
        let mut diffed = Pos { line: 0, byte: 0 };
        let mut distance = Length { lines: self.line, bytes: self.byte };
        let mut i: usize = 0;
        while i < diff.ops.len()
            invariant
                i <= diff.ops@.len(),
                spec_rebase(diff@, i as int, diffed, distance, mode) == self.spec_apply_diff(diff@, mode),
            decreases diff.ops@.len() - i,
        {
            match diff.ops[i] {
                OpInfo::Retain(l) => {
                    if l.le(distance) {
                        diffed = diffed.offset_by(l);
                        distance = distance.minus(l);
                    } else {
                        return diffed.offset_by(distance);
                    }
                },
                OpInfo::Delete(l) => {
                    distance = if l.le(distance) {
                        distance.minus(l)
                    } else {
                        Length { lines: 0, bytes: 0 }
                    };
                },
                OpInfo::Insert(l) => {
                    if distance.is_zero() && mode == ApplyDiffMode::InsertAfter {
                        return diffed;
                    }
                    diffed = diffed.offset_by(l);
                },
            }
            i += 1;
        }
        diffed.offset_by(distance)
    }
}

/// The operations of a diff to which `op` is appended: an operation of no
/// extent is left out.
pub open spec fn spec_with_op(ops: Seq<OpInfo>, op: OpInfo) -> Seq<OpInfo> {
    let len = match op {
        OpInfo::Retain(l) => l,
        OpInfo::Delete(l) => l,
        OpInfo::Insert(l) => l,
    };
    if len.spec_is_zero() {
        ops
    } else {
        ops.push(op)
    }
}

impl Diff {
    /// The diff without operations.
    pub fn new() -> (d: Diff)
        ensures
            d@ == Seq::<OpInfo>::empty(),
    {
        Diff { ops: Vec::new() }
    }

    /// Appends `op` unless it has no extent.
    pub fn push_op(&mut self, op: OpInfo)
        ensures
            final(self)@ == spec_with_op(old(self)@, op),
    {
        let len = match op {
            OpInfo::Retain(l) => l,
            OpInfo::Delete(l) => l,
            OpInfo::Insert(l) => l,
        };
        if !len.is_zero() {
            self.ops.push(op);
        }
    }
}

impl Edit {
    /// The extent of what the edit removes.
    pub open spec fn spec_deleted(&self) -> Length {
        self.end.spec_distance_from(self.start)
    }

    /// The extent of what the edit inserts.
    pub open spec fn spec_inserted(&self) -> Length {
        Length { lines: (self.text@.len() - 1) as usize, bytes: self.text@.last().len() as usize }
    }

    /// The text that an edit inserts has a line.
    pub open spec fn wf(&self) -> bool {
        self.text.wf()
    }

    /// Where `p` stands once the edit is made: where it was, if it lay before
    /// the edit; at the start of the edit or, under `InsertBefore`, behind
    /// what was inserted, if it lay within what was removed; as far behind
    /// the insertion as it was behind the removed span otherwise.
    pub open spec fn spec_apply_to(&self, p: Pos, mode: ApplyDiffMode) -> Pos {
        if p.spec_lt(self.start) {
            p
        } else if p.spec_le(self.end) {
            match mode {
                ApplyDiffMode::InsertBefore => self.start.spec_offset_by(self.spec_inserted()),
                ApplyDiffMode::InsertAfter => self.start,
            }
        } else {
            self.start.spec_offset_by(self.spec_inserted()).spec_offset_by(
                p.spec_distance_from(self.end),
            )
        }
    }

    /// The edit that undoes this one on `text`, the text before this edit:
    /// it puts what this edit removes in place of what it inserts.
    pub fn inverse(&self, text: &Text) -> (inv: Edit)
        requires
            self.wf(),
            text.wf(),
        ensures
            inv.wf(),
            inv.start == crate::text::spec_clamp(text@, self.start),
            inv.end == inv.start.spec_offset_by(self.spec_inserted()),
            inv.text@ == crate::text::spec_slice_range(text@, self.start, self.end),
    {
        let start = text.clamp(self.start);
        Edit {
            start,
            end: start.offset_by(self.text.length()),
            text: text.slice(self.start, self.end),
        }
    }

    /// Rebases `p` onto the text after the edit.
    pub fn apply_to(&self, p: Pos, mode: ApplyDiffMode) -> (q: Pos)
        requires
            self.wf(),
        ensures
            q == self.spec_apply_to(p, mode),
    {
        if p.lt(self.start) {
            p
        } else if p.le(self.end) {
            match mode {
                ApplyDiffMode::InsertBefore => self.start.offset_by(self.text.length()),
                ApplyDiffMode::InsertAfter => self.start,
            }
        } else {
            self.start.offset_by(self.text.length()).offset_by(p.distance_from(self.end))
        }
    }
}

/// The start of the character that ends at byte `b` of `line`: the nearest
/// byte before `b` that is no continuation byte, or 0.
pub open spec fn spec_prev_boundary(line: Seq<u8>, b: int) -> int
    decreases b,
{
    if b <= 1 {
        0
    } else if spec_starts_char(line[b - 1]) {
        b - 1
    } else {
        spec_prev_boundary(line, b - 1)
    }
}

/// The end of the character that starts at byte `b` of `line`: the nearest
/// byte behind `b` that is no continuation byte, or the end of the line.
pub open spec fn spec_next_boundary(line: Seq<u8>, b: int) -> int
    decreases line.len() - b,
{
    if b + 1 >= line.len() {
        line.len() as int
    } else if spec_starts_char(line[b + 1]) {
        b + 1
    } else {
        spec_next_boundary(line, b + 1)
    }
}

/// The position one character to the left of `p`: the end of the line above
/// from the start of a line, `p` itself at the start of the text.
pub open spec fn spec_move_left(t: Seq<Seq<u8>>, p: Pos) -> Pos {
    if p.byte > 0 {
        Pos { line: p.line, byte: spec_prev_boundary(t[p.line as int], p.byte as int) as usize }
    } else if p.line > 0 {
        Pos { line: (p.line - 1) as usize, byte: t[p.line - 1].len() as usize }
    } else {
        p
    }
}

/// The position one character to the right of `p`: the start of the line
/// below from the end of a line, `p` itself at the end of the text.
pub open spec fn spec_move_right(t: Seq<Seq<u8>>, p: Pos) -> Pos {
    if p.byte < t[p.line as int].len() {
        Pos { line: p.line, byte: spec_next_boundary(t[p.line as int], p.byte as int) as usize }
    } else if p.line + 1 < t.len() {
        Pos { line: (p.line + 1) as usize, byte: 0 }
    } else {
        p
    }
}

/// Moves a position of the text one character to the left.
pub fn move_left(text: &Text, p: Pos) -> (q: Pos)
    requires
        text.wf(),
        spec_in_text(text@, p),
    ensures
        q == spec_move_left(text@, p),
        spec_in_text(text@, q),
        q.spec_le(p),
{
    if p.byte > 0 {
        let line = &text.lines[p.line];
        let mut b: usize = p.byte;
        while b > 1 && !(line[b - 1] < 0x80 || line[b - 1] >= 0xC0)
            invariant
                1 <= b <= p.byte <= line@.len(),
                spec_prev_boundary(line@, b as int) == spec_prev_boundary(line@, p.byte as int),
            decreases b,
        {
            b -= 1;
        }
        Pos { line: p.line, byte: b - 1 }
    } else if p.line > 0 {
        Pos { line: p.line - 1, byte: text.lines[p.line - 1].len() }
    } else {
        p
    }
}

/// Moves a position of the text one character to the right.
pub fn move_right(text: &Text, p: Pos) -> (q: Pos)
    requires
        text.wf(),
        spec_in_text(text@, p),
    ensures
        q == spec_move_right(text@, p),
        spec_in_text(text@, q),
        p.spec_le(q),
{
    proof {
        assert(text@.len() == text.lines@.len());
    }
    let line = &text.lines[p.line];
    if p.byte < line.len() {
        let mut b: usize = p.byte;
        while b + 1 < line.len() && !(line[b + 1] < 0x80 || line[b + 1] >= 0xC0)
            invariant
                p.byte <= b < line.len(),
                spec_next_boundary(line@, b as int) == spec_next_boundary(line@, p.byte as int),
            decreases line@.len() - b,
        {
            b += 1;
        }
        Pos { line: p.line, byte: b + 1 }
    } else if p.line < text.lines.len() - 1 {
        Pos { line: p.line + 1, byte: 0 }
    } else {
        p
    }
}

/// The edit that puts `text` in place of `range`.
pub fn replace(range: Range, text: Text) -> (e: Edit)
    ensures
        e.start == range.start,
        e.end == range.end,
        e.text == text,
{
    Edit { start: range.start, end: range.end, text }
}

/// The edit that puts a line break in place of `range`.
pub fn enter(range: Range) -> (e: Edit)
    ensures
        e.start == range.start,
        e.end == range.end,
        e.text.wf(),
        e.text@ == seq![Seq::<u8>::empty(), Seq::<u8>::empty()],
{
    let mut lines: Vec<Vec<u8>> = Vec::new();
    lines.push(Vec::new());
    lines.push(Vec::new());
    let text = Text::from_lines(lines);
    proof {
        assert(text@ =~= seq![Seq::<u8>::empty(), Seq::<u8>::empty()]);
    }
    Edit { start: range.start, end: range.end, text }
}

/// The edit that removes `range`.
pub fn delete(range: Range) -> (e: Edit)
    ensures
        e.start == range.start,
        e.end == range.end,
        e.text.wf(),
        e.text@ == seq![Seq::<u8>::empty()],
{
    Edit { start: range.start, end: range.end, text: Text::new() }
}

/// The edit that removes `range` or, where `range` is empty, the character
/// before it. The start of the range is first moved into the text.
pub fn backspace(text: &Text, range: Range) -> (e: Edit)
    requires
        text.wf(),
    ensures
        e.end == range.end,
        e.start == (if range.spec_is_empty() {
            spec_move_left(text@, crate::text::spec_clamp(text@, range.start))
        } else {
            range.start
        }),
        e.text.wf(),
        e.text@ == seq![Seq::<u8>::empty()],
{
    if range.is_empty() {
        let start = move_left(text, text.clamp(range.start));
        Edit { start, end: range.end, text: Text::new() }
    } else {
        Edit { start: range.start, end: range.end, text: Text::new() }
    }
}

} // verus!
