//! Cursors and selections.

use vstd::prelude::*;
use crate::pos::{BiasedPos, Length};

verus! {

/// A caret: a biased position, and the sticky visual column that vertical
/// motion keeps while it crosses lines of varying width.
#[derive(Clone, Copy, Debug, PartialEq, Eq, Structural)]
pub struct Cursor {
    pub biased_pos: BiasedPos,
    pub column: Option<usize>,
}

/// A selection: the anchor where it began and the cursor where it ends now.
#[derive(Clone, Copy, Debug, PartialEq, Eq, Structural)]
pub struct Sel {
    pub anchor: BiasedPos,
    pub cursor: Cursor,
}

impl Cursor {
    /// A cursor at `pos` with no sticky column.
    pub fn from(pos: BiasedPos) -> (c: Cursor)
        ensures
            c == (Cursor { biased_pos: pos, column: None }),
    {
        Cursor { biased_pos: pos, column: None }
    }
}

impl Sel {
    /// The smaller of anchor and cursor.
    pub open spec fn spec_start(self) -> BiasedPos {
        if self.anchor.spec_le(self.cursor.biased_pos) {
            self.anchor
        } else {
            self.cursor.biased_pos
        }
    }

    /// The larger of anchor and cursor.
    pub open spec fn spec_end(self) -> BiasedPos {
        if self.anchor.spec_le(self.cursor.biased_pos) {
            self.cursor.biased_pos
        } else {
            self.anchor
        }
    }

    /// Whether the anchor does not lie behind the cursor.
    pub open spec fn forward(self) -> bool {
        self.anchor.spec_le(self.cursor.biased_pos)
    }

    /// What merging `self` with a selection `other` that starts no earlier
    /// gives: nothing if `other` starts behind the end of `self`; otherwise the
    /// selection from the start of `self` to the later of the two ends, which
    /// points forward if that end is a cursor that was after its anchor, or an
    /// anchor that was after its cursor in a selection that extended further.
    pub open spec fn spec_try_merge(self, other: Sel) -> Option<Sel> {
        if self.spec_end().spec_lt(other.spec_start()) {
            None
        } else {
            let start = if self.spec_start().spec_le(other.spec_start()) {
                self.spec_start()
            } else {
                other.spec_start()
            };
            let extends = self.spec_end().spec_lt(other.spec_end());
            let end = if extends {
                other.spec_end()
            } else {
                self.spec_end()
            };
            let from = if extends {
                other
            } else {
                self
            };
            if from.forward() {
                Some(Sel { anchor: start, cursor: Cursor { biased_pos: end, column: from.cursor.column } })
            } else {
                Some(Sel { anchor: end, cursor: Cursor { biased_pos: start, column: from.cursor.column } })
            }
        }
    }

    /// The caret selection at `cursor`.
    pub fn from(cursor: Cursor) -> (s: Sel)
        ensures
            s == (Sel { anchor: cursor.biased_pos, cursor }),
    {
        Sel { anchor: cursor.biased_pos, cursor }
    }

    pub fn start(self) -> (p: BiasedPos)
        ensures
            p == self.spec_start(),
    {
        if self.anchor.le(self.cursor.biased_pos) {
            self.anchor
        } else {
            self.cursor.biased_pos
        }
    }

    pub fn end(self) -> (p: BiasedPos)
        ensures
            p == self.spec_end(),
    {
        if self.anchor.le(self.cursor.biased_pos) {
            self.cursor.biased_pos
        } else {
            self.anchor
        }
    }

    /// The span between start and end.
    pub fn len(self) -> (l: Length)
        ensures
            l == self.spec_end().pos.spec_distance_from(self.spec_start().pos),
    {
        self.end().pos.distance_from(self.start().pos)
    }

    /// The caret at the cursor of `self`.
    pub fn reset_anchor(self) -> (s: Sel)
        ensures
            s == (Sel { anchor: self.cursor.biased_pos, cursor: self.cursor }),
    {
        Sel { anchor: self.cursor.biased_pos, cursor: self.cursor }
    }

    /// Merges two selections that overlap or touch.
    pub fn try_merge(self, other: Sel) -> (r: Option<Sel>)
        ensures
            r == self.spec_try_merge(other),
    {
        if self.end().lt(other.start()) {
            return None;
        }
        let start = if self.start().le(other.start()) {
            self.start()
        } else {
            other.start()
        };
        let extends = self.end().lt(other.end());
        let end = if extends {
            other.end()
        } else {
            self.end()
        };
        let from = if extends {
            other
        } else {
            self
        };
        if from.anchor.le(from.cursor.biased_pos) {
            Some(Sel { anchor: start, cursor: Cursor { biased_pos: end, column: from.cursor.column } })
        } else {
            Some(Sel { anchor: end, cursor: Cursor { biased_pos: start, column: from.cursor.column } })
        }
    }
}

/// A merged selection covers exactly the two it came from: it starts at the
/// earlier start and ends at the later end.
pub proof fn merge_covers(a: Sel, b: Sel)
    requires
        a.spec_try_merge(b) is Some,
    ensures
        a.spec_try_merge(b).unwrap().spec_start() == (if a.spec_start().spec_le(b.spec_start()) {
            a.spec_start()
        } else {
            b.spec_start()
        }),
        a.spec_try_merge(b).unwrap().spec_end() == (if a.spec_end().spec_lt(b.spec_end()) {
            b.spec_end()
        } else {
            a.spec_end()
        }),
{
}

/// Merging a selection with itself gives that selection back.
pub proof fn merge_idempotent(a: Sel)
    ensures
        a.spec_try_merge(a) == Some(a),
{
}

/// Two selections merge exactly when the second starts no later than the
/// first ends.
pub proof fn merge_iff_touching(a: Sel, b: Sel)
    ensures
        a.spec_try_merge(b) is None <==> a.spec_end().spec_lt(b.spec_start()),
{
}

} // verus!
