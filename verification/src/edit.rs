//! Edits at every selection, and what they do to the state kept per line.

use vstd::prelude::*;
use crate::diff::{backspace, delete, enter, replace, ApplyDiffMode, Diff, Edit, OpInfo, spec_move_left};
use crate::lines::{
    fit_empty_slots, fit_slots, insert_empty_slots, insert_slots, remove_nested_slots, remove_slots,
    spec_fitted, spec_with_fresh, spec_without, views,
};
use crate::pos::{saturating_add, saturating_sum, BiasedPos, Length, Pos, Range};
use crate::sel::{Cursor, Sel};
use crate::text::{spec_clamp, spec_replace_range, Text};
use crate::view_mut::{spec_heights_updated, ViewMut, SCALE_ONE};

verus! {

/// What an edit does at each selection.
#[derive(Clone, Copy, Debug, PartialEq, Eq, Structural)]
pub enum EditKind {
    /// The selection is replaced by a text.
    Replace,
    /// The selection is replaced by a line break.
    Enter,
    /// The selection is removed.
    Delete,
    /// The selection is removed, or the character before a caret.
    Backspace,
}

/// The line reached after the first `n` operations: a span kept or inserted
/// moves on by its line breaks, a span removed does not.
pub open spec fn spec_line_after(ops: Seq<OpInfo>, n: int) -> usize
    decreases n,
{
    if n <= 0 {
        0
    } else {
        let line = spec_line_after(ops, n - 1);
        match ops[n - 1] {
            OpInfo::Retain(l) => saturating_sum(line, l.lines),
            OpInfo::Delete(l) => line,
            OpInfo::Insert(l) => saturating_sum(line, l.lines),
        }
    }
}

/// A per-line array after the first `n` operations: a removed span takes the
/// slots of its line breaks away from the line reached on, an inserted span
/// puts as many fresh slots behind the line reached.
pub open spec fn spec_spliced<T>(slots: Seq<T>, ops: Seq<OpInfo>, n: int, fresh: T) -> Seq<T>
    decreases n,
{
    if n <= 0 {
        slots
    } else {
        let s = spec_spliced(slots, ops, n - 1, fresh);
        let line = spec_line_after(ops, n - 1);
        match ops[n - 1] {
            OpInfo::Retain(l) => s,
            OpInfo::Delete(l) => spec_without(s, line as int, l.lines as int),
            OpInfo::Insert(l) => spec_with_fresh(
                s,
                saturating_sum(line, 1) as int,
                l.lines as int,
                fresh,
            ),
        }
    }
}

/// How many summed heights stay valid after the first `n` operations: no more
/// than `len`, and none from a line on at which a span was removed or
/// inserted.
pub open spec fn spec_diff_cut(ops: Seq<OpInfo>, n: int, len: int) -> int
    decreases n,
{
    if n <= 0 {
        len
    } else {
        let c = spec_diff_cut(ops, n - 1, len);
        let line = spec_line_after(ops, n - 1);
        match ops[n - 1] {
            OpInfo::Retain(l) => c,
            _ => if line < c { line as int } else { c },
        }
    }
}

/// The state of an edit that goes from selection to selection.
pub struct EditState {
    pub text: Seq<Seq<u8>>,
    pub sels: Seq<Sel>,
    pub diff: Seq<OpInfo>,
    pub prev_end: Pos,
    pub diffed_prev_end: Pos,
}

/// The span from `from` to `to`, empty where `to` lies before `from`.
pub open spec fn spec_span(from: Pos, to: Pos) -> Length {
    if from.spec_le(to) {
        to.spec_distance_from(from)
    } else {
        Length { lines: 0, bytes: 0 }
    }
}

/// Where the edit of the given kind starts on `range`: at its start, or one
/// character before where a backspace meets a caret.
pub open spec fn spec_edit_start(kind: EditKind, t: Seq<Seq<u8>>, range: Range) -> Pos {
    if kind == EditKind::Backspace && range.spec_is_empty() {
        spec_move_left(t, spec_clamp(t, range.start))
    } else {
        range.start
    }
}

/// The text that the edit of the given kind inserts.
pub open spec fn spec_edit_text(kind: EditKind, with: Seq<Seq<u8>>) -> Seq<Seq<u8>> {
    match kind {
        EditKind::Replace => with,
        EditKind::Enter => seq![Seq::<u8>::empty(), Seq::<u8>::empty()],
        _ => seq![Seq::<u8>::empty()],
    }
}

/// The extent of the text `w`.
pub open spec fn spec_extent(w: Seq<Seq<u8>>) -> Length {
    Length { lines: (w.len() - 1) as usize, bytes: w.last().len() as usize }
}

/// Where `p` stands after the span from `start` to `end` gave way to a text
/// of extent `inserted`, text inserted at `p` coming before it.
pub open spec fn spec_rebased(p: Pos, start: Pos, end: Pos, inserted: Length) -> Pos {
    if p.spec_lt(start) {
        p
    } else if p.spec_le(end) {
        start.spec_offset_by(inserted)
    } else {
        start.spec_offset_by(inserted).spec_offset_by(p.spec_distance_from(end))
    }
}

/// The edit at one more selection. The selection lies as far behind the
/// place where the last one ended as it did before the edit; its span is
/// edited; both its ends are rebased, keep their biases and their order, and
/// the cursor loses its sticky column. The diff keeps what lies between the
/// two edits, removes the span and inserts the text.
pub open spec fn spec_edit_step(s: EditState, sel: Sel, kind: EditKind, with: Seq<Seq<u8>>) -> EditState {
    let start = s.diffed_prev_end.spec_offset_by(spec_span(s.prev_end, sel.spec_start().pos));
    let end = start.spec_offset_by(sel.spec_end().pos.spec_distance_from(sel.spec_start().pos));
    let range = Range { start, end };
    let from = spec_edit_start(kind, s.text, range);
    let w = spec_edit_text(kind, with);
    let new_start = BiasedPos {
        pos: spec_rebased(start, from, end, spec_extent(w)),
        bias: sel.spec_start().bias,
    };
    let new_end = BiasedPos {
        pos: spec_rebased(end, from, end, spec_extent(w)),
        bias: sel.spec_end().bias,
    };
    EditState {
        text: spec_replace_range(s.text, from, end, w),
        sels: s.sels.push(
            if sel.forward() {
                Sel { anchor: new_start, cursor: Cursor { biased_pos: new_end, column: None } }
            } else {
                Sel { anchor: new_end, cursor: Cursor { biased_pos: new_start, column: None } }
            },
        ),
        diff: crate::diff::spec_with_op(
            crate::diff::spec_with_op(
                crate::diff::spec_with_op(
                    s.diff,
                    OpInfo::Retain(spec_span(s.diffed_prev_end, from)),
                ),
                OpInfo::Delete(spec_span(from, end)),
            ),
            OpInfo::Insert(spec_extent(w)),
        ),
        prev_end: sel.spec_end().pos,
        diffed_prev_end: new_end.pos,
    }
}

/// The edit at the first `n` selections, in their order.
pub open spec fn spec_edited(t: Seq<Seq<u8>>, sels: Seq<Sel>, kind: EditKind, with: Seq<Seq<u8>>, n: int) -> EditState
    decreases n,
{
    if n <= 0 {
        EditState {
            text: t,
            sels: Seq::empty(),
            diff: Seq::empty(),
            prev_end: Pos { line: 0, byte: 0 },
            diffed_prev_end: Pos { line: 0, byte: 0 },
        }
    } else {
        spec_edit_step(spec_edited(t, sels, kind, with, n - 1), sels[n - 1], kind, with)
    }
}

/// The edit of the given kind on `range` of `text`.
pub fn edit_for(kind: EditKind, with: &Text, text: &Text, range: Range) -> (e: Edit)
    requires
        text.wf(),
        with.wf(),
    ensures
        e.text.wf(),
        e.start == spec_edit_start(kind, text@, range),
        e.end == range.end,
        e.text@ == spec_edit_text(kind, with@),
{
    match kind {
        EditKind::Replace => replace(range, with.duplicate()),
        EditKind::Enter => enter(range),
        EditKind::Delete => delete(range),
        EditKind::Backspace => backspace(text, range),
    }
}

impl ViewMut {
    /// The invariant of the document state but for the number of slots of
    /// the per-line arrays.
    pub open spec fn wf_but_lines(&self) -> bool {
        &&& self.text.wf()
        &&& self.settings.tab_width > 0
        &&& forall|l: int| 0 <= l < self.scale@.len() ==> #[trigger] self.scale@[l] <= SCALE_ONE
        &&& self.sels@.len() >= 1
        &&& self.latest_sel_index < self.sels@.len()
        &&& crate::lines::distinct(self.folding_lines@)
        &&& crate::lines::distinct(self.unfolding_lines@)
        &&& forall|l: usize|
            !(self.folding_lines@.contains(l) && self.unfolding_lines@.contains(l))
    }

    /// Whether `self` and `other` differ in nothing but the per-line arrays
    /// and the summed heights.
    pub open spec fn same_but_lines(&self, other: &ViewMut) -> bool {
        &&& self.settings == other.settings
        &&& self.block_widget_inlays == other.block_widget_inlays
        &&& self.line_inlays == other.line_inlays
        &&& self.max_column == other.max_column
        &&& self.text == other.text
        &&& self.sels == other.sels
        &&& self.latest_sel_index == other.latest_sel_index
        &&& self.folding_lines == other.folding_lines
        &&& self.unfolding_lines == other.unfolding_lines
    }

    /// Whether the per-line arrays of `self` are those of `before` after the
    /// operations `ops`, cut or filled up to one slot per line; a fresh line
    /// has no widgets and no soft breaks, continuation and fold column 0, and
    /// is fully shown.
    pub open spec fn lines_follow(&self, before: &ViewMut, ops: Seq<OpInfo>) -> bool {
        let n = ops.len() as int;
        let count = self.line_count();
        &&& views(self.inline_widget_inlays@) == spec_fitted(
            spec_spliced(views(before.inline_widget_inlays@), ops, n, Seq::empty()),
            count,
            Seq::empty(),
        )
        &&& views(self.inline_text_inlays@) == spec_fitted(
            spec_spliced(views(before.inline_text_inlays@), ops, n, Seq::empty()),
            count,
            Seq::empty(),
        )
        &&& views(self.token_ends@) == spec_fitted(
            spec_spliced(views(before.token_ends@), ops, n, Seq::empty()),
            count,
            Seq::empty(),
        )
        &&& views(self.soft_breaks@) == spec_fitted(
            spec_spliced(views(before.soft_breaks@), ops, n, Seq::empty()),
            count,
            Seq::empty(),
        )
        &&& self.start_column_after_wrap@ == spec_fitted(
            spec_spliced(before.start_column_after_wrap@, ops, n, 0usize),
            count,
            0usize,
        )
        &&& self.fold_column@ == spec_fitted(
            spec_spliced(before.fold_column@, ops, n, 0usize),
            count,
            0usize,
        )
        &&& self.scale@ == spec_fitted(spec_spliced(before.scale@, ops, n, SCALE_ONE), count, SCALE_ONE)
    }

    /// Whether the summed heights of `self` are those of `before`, cut at the
    /// first line that an operation of `ops` touched and at the number of
    /// lines, and then brought up to date.
    pub open spec fn heights_follow(&self, before: &ViewMut, ops: Seq<OpInfo>) -> bool {
        let cut = spec_diff_cut(ops, ops.len() as int, before.summed_heights@.len() as int);
        let count = self.line_count();
        self.summed_heights@ == spec_heights_updated(
            before.summed_heights@.subrange(0, if count < cut { count } else { cut }),
            self.scale@,
            self.soft_breaks@, crate::view_mut::spec_between(self.block_widget_inlays@, self.line_inlays@),
        )
    }

    /// Brings the per-line arrays in line with a text that `diff` has changed,
    /// cuts the summed heights at the first line that an operation touched,
    /// and brings them up to date.
    pub fn update_after_modify_text(&mut self, diff: &Diff)
        requires
            old(self).wf_but_lines(),
        ensures
            final(self).wf(),
            final(self).same_but_lines(old(self)),
            final(self).lines_follow(old(self), diff@),
            final(self).heights_follow(old(self), diff@),
    {
        let ghost len = self.summed_heights@.len() as int;
        let ghost ops = diff@;
        let mut line: usize = 0;
        let mut i: usize = 0;
        proof {
            assert(self.summed_heights@ =~= old(self).summed_heights@.subrange(0, len));
        }
        while i < diff.ops.len()
            invariant
                i <= diff.ops@.len(),
                ops == diff@,
                len == old(self).summed_heights@.len(),
                self.wf_but_lines(),
                self.same_but_lines(old(self)),
                line == spec_line_after(ops, i as int),
                views(self.inline_widget_inlays@) == spec_spliced(
                    views(old(self).inline_widget_inlays@),
                    ops,
                    i as int,
                    Seq::empty(),
                ),
                views(self.inline_text_inlays@) == spec_spliced(
                    views(old(self).inline_text_inlays@),
                    ops,
                    i as int,
                    Seq::empty(),
                ),
                views(self.token_ends@) == spec_spliced(
                    views(old(self).token_ends@),
                    ops,
                    i as int,
                    Seq::empty(),
                ),
                views(self.soft_breaks@) == spec_spliced(
                    views(old(self).soft_breaks@),
                    ops,
                    i as int,
                    Seq::empty(),
                ),
                self.start_column_after_wrap@ == spec_spliced(
                    old(self).start_column_after_wrap@,
                    ops,
                    i as int,
                    0usize,
                ),
                self.fold_column@ == spec_spliced(old(self).fold_column@, ops, i as int, 0usize),
                self.scale@ == spec_spliced(old(self).scale@, ops, i as int, SCALE_ONE),
                0 <= spec_diff_cut(ops, i as int, len) <= len,
                self.summed_heights@ == old(self).summed_heights@.subrange(
                    0,
                    spec_diff_cut(ops, i as int, len),
                ),
            decreases diff.ops@.len() - i,
        {
            match diff.ops[i] {
                OpInfo::Retain(l) => {
                    line = saturating_add(line, l.lines);
                },
                OpInfo::Delete(l) => {
                    remove_nested_slots(&mut self.inline_widget_inlays, line, l.lines);
                    remove_nested_slots(&mut self.token_ends, line, l.lines);
                    remove_nested_slots(&mut self.inline_text_inlays, line, l.lines);
                    remove_nested_slots(&mut self.soft_breaks, line, l.lines);
                    remove_slots(&mut self.start_column_after_wrap, line, l.lines);
                    remove_slots(&mut self.fold_column, line, l.lines);
                    remove_slots(&mut self.scale, line, l.lines);
                    if line < self.summed_heights.len() {
                        self.summed_heights.truncate(line);
                    }
                },
                OpInfo::Insert(l) => {
                    let at = saturating_add(line, 1);
                    insert_empty_slots(&mut self.inline_widget_inlays, at, l.lines);
                    insert_empty_slots(&mut self.token_ends, at, l.lines);
                    insert_empty_slots(&mut self.inline_text_inlays, at, l.lines);
                    insert_empty_slots(&mut self.soft_breaks, at, l.lines);
                    insert_slots(&mut self.start_column_after_wrap, at, l.lines, 0);
                    insert_slots(&mut self.fold_column, at, l.lines, 0);
                    insert_slots(&mut self.scale, at, l.lines, SCALE_ONE);
                    if line < self.summed_heights.len() {
                        self.summed_heights.truncate(line);
                    }
                    line = saturating_add(line, l.lines);
                },
            }
            proof {
                assert(self.summed_heights@ =~= old(self).summed_heights@.subrange(
                    0,
                    spec_diff_cut(ops, i + 1, len),
                ));
            }
            i += 1;
        }
        let count = self.text.line_count();
        fit_empty_slots(&mut self.inline_widget_inlays, count);
        fit_empty_slots(&mut self.token_ends, count);
        fit_empty_slots(&mut self.inline_text_inlays, count);
        fit_empty_slots(&mut self.soft_breaks, count);
        fit_slots(&mut self.start_column_after_wrap, count, 0);
        fit_slots(&mut self.fold_column, count, 0);
        fit_slots(&mut self.scale, count, SCALE_ONE);
        let ghost kept = self.summed_heights@.len() as int;
        if count < self.summed_heights.len() {
            self.summed_heights.truncate(count);
        }
        let ghost cut = self.summed_heights@.len() as int;
        proof {
            assert(self.summed_heights@ =~= old(self).summed_heights@.subrange(0, cut));
        }
        self.update_summed_heights();
    }

    /// Edits the text at every selection, in their order. Each selection
    /// becomes what is left of it after its edit; the state kept per line and
    /// the summed heights follow the text. Hands back the diff of the whole
    /// edit, for a lexer that follows the text.
    #[verifier::rlimit(60)]
    pub fn modify_text(&mut self, kind: EditKind, with: &Text) -> (diff: Diff)
        requires
            old(self).wf(),
            with.wf(),
        ensures
            final(self).wf(),
            final(self).settings == old(self).settings,
            final(self).block_widget_inlays == old(self).block_widget_inlays,
            final(self).line_inlays == old(self).line_inlays,
            final(self).max_column == old(self).max_column,
            final(self).latest_sel_index == old(self).latest_sel_index,
            final(self).folding_lines == old(self).folding_lines,
            final(self).unfolding_lines == old(self).unfolding_lines,
            ({
                let done = spec_edited(
                    old(self).text@,
                    old(self).sels@,
                    kind,
                    with@,
                    old(self).sels@.len() as int,
                );
                &&& final(self).text@ == done.text
                &&& final(self).sels@ == done.sels
                &&& final(self).lines_follow(old(self), done.diff)
                &&& final(self).heights_follow(old(self), done.diff)
                &&& diff@ == done.diff
            }),
    {
        let mut composite = Diff::new();
        let mut prev_end = Pos::origin();
        let mut diffed_prev_end = Pos::origin();
        let mut out: Vec<Sel> = Vec::new();
        let mut i: usize = 0;
        while i < self.sels.len()
            invariant
                i <= self.sels@.len(),
                out@.len() == i,
                with.wf(),
                self.wf_but_lines(),
                self.sels == old(self).sels,
                self.settings == old(self).settings,
                self.block_widget_inlays == old(self).block_widget_inlays,
                self.line_inlays == old(self).line_inlays,
                self.max_column == old(self).max_column,
                self.latest_sel_index == old(self).latest_sel_index,
                self.folding_lines == old(self).folding_lines,
                self.unfolding_lines == old(self).unfolding_lines,
                self.inline_widget_inlays == old(self).inline_widget_inlays,
                self.token_ends == old(self).token_ends,
                self.inline_text_inlays == old(self).inline_text_inlays,
                self.soft_breaks == old(self).soft_breaks,
                self.start_column_after_wrap == old(self).start_column_after_wrap,
                self.fold_column == old(self).fold_column,
                self.scale == old(self).scale,
                self.summed_heights == old(self).summed_heights,
                spec_edited(old(self).text@, old(self).sels@, kind, with@, i as int) == (EditState {
                    text: self.text@,
                    sels: out@,
                    diff: composite@,
                    prev_end,
                    diffed_prev_end,
                }),
            decreases self.sels@.len() - i,
        {
            let sel = self.sels[i];
            let first = sel.start();
            let last = sel.end();
            let start = diffed_prev_end.offset_by(first.pos.distance_from(prev_end));
            let end = start.offset_by(sel.len());
            let edit = edit_for(kind, with, &self.text, Range { start, end });
            let inserted = edit.text.length();
            let new_start = BiasedPos {
                pos: edit.apply_to(start, ApplyDiffMode::InsertBefore),
                bias: first.bias,
            };
            let new_end = BiasedPos {
                pos: edit.apply_to(end, ApplyDiffMode::InsertBefore),
                bias: last.bias,
            };
            composite.push_op(OpInfo::Retain(edit.start.distance_from(diffed_prev_end)));
            composite.push_op(OpInfo::Delete(edit.end.distance_from(edit.start)));
            composite.push_op(OpInfo::Insert(inserted));
            self.text.replace_range(edit.start, edit.end, &edit.text);
            out.push(
                if sel.anchor.le(sel.cursor.biased_pos) {
                    Sel { anchor: new_start, cursor: Cursor { biased_pos: new_end, column: None } }
                } else {
                    Sel { anchor: new_end, cursor: Cursor { biased_pos: new_start, column: None } }
                },
            );
            prev_end = last.pos;
            diffed_prev_end = new_end.pos;
            i += 1;
        }
        self.sels = out;
        self.update_after_modify_text(&composite);
        composite
    }

    /// Puts `replace_with` in place of every selection.
    pub fn replace(&mut self, replace_with: Text) -> (diff: Diff)
        requires
            old(self).wf(),
            replace_with.wf(),
        ensures
            final(self).wf(),
            final(self).settings == old(self).settings,
            final(self).block_widget_inlays == old(self).block_widget_inlays,
            final(self).line_inlays == old(self).line_inlays,
            final(self).max_column == old(self).max_column,
            final(self).latest_sel_index == old(self).latest_sel_index,
            final(self).folding_lines == old(self).folding_lines,
            final(self).unfolding_lines == old(self).unfolding_lines,
            ({
                let done = spec_edited(
                    old(self).text@,
                    old(self).sels@,
                    EditKind::Replace,
                    replace_with@,
                    old(self).sels@.len() as int,
                );
                &&& final(self).text@ == done.text
                &&& final(self).sels@ == done.sels
                &&& final(self).lines_follow(old(self), done.diff)
                &&& final(self).heights_follow(old(self), done.diff)
                &&& diff@ == done.diff
            }),
    {
        self.modify_text(EditKind::Replace, &replace_with)
    }

    /// Puts a line break in place of every selection.
    pub fn enter(&mut self) -> (diff: Diff)
        requires
            old(self).wf(),
        ensures
            final(self).wf(),
            final(self).settings == old(self).settings,
            final(self).block_widget_inlays == old(self).block_widget_inlays,
            final(self).line_inlays == old(self).line_inlays,
            final(self).max_column == old(self).max_column,
            final(self).latest_sel_index == old(self).latest_sel_index,
            final(self).folding_lines == old(self).folding_lines,
            final(self).unfolding_lines == old(self).unfolding_lines,
            ({
                let done = spec_edited(
                    old(self).text@,
                    old(self).sels@,
                    EditKind::Enter,
                    seq![Seq::<u8>::empty()],
                    old(self).sels@.len() as int,
                );
                &&& final(self).text@ == done.text
                &&& final(self).sels@ == done.sels
                &&& final(self).lines_follow(old(self), done.diff)
                &&& final(self).heights_follow(old(self), done.diff)
                &&& diff@ == done.diff
            }),
    {
        let none = Text::new();
        self.modify_text(EditKind::Enter, &none)
    }

    /// Removes every selection.
    pub fn delete(&mut self) -> (diff: Diff)
        requires
            old(self).wf(),
        ensures
            final(self).wf(),
            final(self).settings == old(self).settings,
            final(self).block_widget_inlays == old(self).block_widget_inlays,
            final(self).line_inlays == old(self).line_inlays,
            final(self).max_column == old(self).max_column,
            final(self).latest_sel_index == old(self).latest_sel_index,
            final(self).folding_lines == old(self).folding_lines,
            final(self).unfolding_lines == old(self).unfolding_lines,
            ({
                let done = spec_edited(
                    old(self).text@,
                    old(self).sels@,
                    EditKind::Delete,
                    seq![Seq::<u8>::empty()],
                    old(self).sels@.len() as int,
                );
                &&& final(self).text@ == done.text
                &&& final(self).sels@ == done.sels
                &&& final(self).lines_follow(old(self), done.diff)
                &&& final(self).heights_follow(old(self), done.diff)
                &&& diff@ == done.diff
            }),
    {
        let none = Text::new();
        self.modify_text(EditKind::Delete, &none)
    }

    /// Removes every selection, and the character before every caret.
    pub fn backspace(&mut self) -> (diff: Diff)
        requires
            old(self).wf(),
        ensures
            final(self).wf(),
            final(self).settings == old(self).settings,
            final(self).block_widget_inlays == old(self).block_widget_inlays,
            final(self).line_inlays == old(self).line_inlays,
            final(self).max_column == old(self).max_column,
            final(self).latest_sel_index == old(self).latest_sel_index,
            final(self).folding_lines == old(self).folding_lines,
            final(self).unfolding_lines == old(self).unfolding_lines,
            ({
                let done = spec_edited(
                    old(self).text@,
                    old(self).sels@,
                    EditKind::Backspace,
                    seq![Seq::<u8>::empty()],
                    old(self).sels@.len() as int,
                );
                &&& final(self).text@ == done.text
                &&& final(self).sels@ == done.sels
                &&& final(self).lines_follow(old(self), done.diff)
                &&& final(self).heights_follow(old(self), done.diff)
                &&& diff@ == done.diff
            }),
    {
        let none = Text::new();
        self.modify_text(EditKind::Backspace, &none)
    }
}

} // verus!
