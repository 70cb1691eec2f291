//! The document state and the operations that change it: edits at every
//! selection, cursor motion, reflow, folding and the layout cache.

use vstd::prelude::*;
use crate::diff::{move_left, move_right, spec_move_left, spec_move_right};
use crate::lines::{distinct, put_in, remove_slots, take_out};
use crate::text::spec_clamp;
use crate::pos::{Bias, BiasedPos, Pos};
use crate::sel::{Cursor, Sel};
use crate::text::Text;
use crate::wrap::{
    byte_at_column, column_count, spec_byte_at_column, spec_column_of, spec_line_breaks,
    inline_pins, spec_line_start, spec_pins, wrap_line, InlineText, InlineWidget,
};

verus! {

/// The vertical scale of a line that is fully shown. A scale is held in
/// millionths: 0 is a fully folded line.
pub const SCALE_ONE: u32 = 1_000_000;

/// The distance from 0 or from `SCALE_ONE` below which a fold animation ends.
pub const SCALE_EPSILON: u32 = 1_000;

#[derive(Clone, Copy, Debug, PartialEq, Eq, Structural)]
pub struct Settings {
    pub tab_width: usize,
}

/// A text with the state derived from it, one slot per line in each of the
/// per-line arrays, the selections, and the lines whose fold is in motion.
#[derive(Debug)]
pub struct ViewMut {
    pub settings: Settings,
    pub max_column: Option<usize>,
    pub text: Text,
    pub inline_widget_inlays: Vec<Vec<InlineWidget>>,
    /// For each line the byte offsets at which the tokens of a lexer end; an
    /// empty list stands for a line that is one token.
    pub token_ends: Vec<Vec<usize>>,
    pub inline_text_inlays: Vec<Vec<InlineText>>,
    pub soft_breaks: Vec<Vec<usize>>,
    pub start_column_after_wrap: Vec<usize>,
    pub fold_column: Vec<usize>,
    pub scale: Vec<u32>,
    pub block_widget_inlays: Vec<BlockWidget>,
    pub line_inlays: Vec<LineInlay>,
    pub summed_heights: Vec<u64>,
    pub sels: Vec<Sel>,
    pub latest_sel_index: usize,
    pub folding_lines: Vec<usize>,
    pub unfolding_lines: Vec<usize>,
}

/// `n` as a `u64`, or the largest `u64` where it does not fit.
pub open spec fn clip_height(n: int) -> u64 {
    if n > u64::MAX {
        u64::MAX
    } else {
        n as u64
    }
}

/// The height of a line in millionths of a row: its scale times the number
/// of its rows, one more than it has soft breaks.
pub open spec fn spec_line_height(scale: u32, breaks: Seq<usize>) -> int {
    scale * (breaks.len() + 1)
}

/// A widget shown between lines, pinned before or after a line. Its height
/// is in millionths of a row.
#[derive(Clone, Copy, Debug, PartialEq, Eq, Structural)]
pub struct BlockWidget {
    pub line: usize,
    pub bias: Bias,
    pub height: u64,
}

/// A line shown between the lines of the text without being part of it,
/// in front of the line whose number it holds. It is one row high.
#[derive(Debug)]
pub struct LineInlay {
    pub line: usize,
    pub text: Vec<u8>,
}

/// All that takes height between the lines: the widgets, and for each inlaid
/// line one row in front of its line.
pub open spec fn spec_between(widgets: Seq<BlockWidget>, inlays: Seq<LineInlay>) -> Seq<BlockWidget> {
    widgets + Seq::new(
        inlays.len(),
        |i: int| BlockWidget { line: inlays[i].line, bias: Bias::Before, height: 1_000_000u64 },
    )
}

/// The height that those of the first `n` widgets take that are pinned on the
/// given side of `line`.
pub open spec fn spec_pinned_height(widgets: Seq<BlockWidget>, line: int, bias: Bias, n: int) -> int
    decreases n,
{
    if n <= 0 {
        0
    } else {
        spec_pinned_height(widgets, line, bias, n - 1) + (if widgets[n - 1].line == line && widgets[n
            - 1].bias == bias {
            widgets[n - 1].height as int
        } else {
            0
        })
    }
}

/// The height of all widgets pinned on the given side of `line`.
pub open spec fn spec_pinned(widgets: Seq<BlockWidget>, line: int, bias: Bias) -> int {
    spec_pinned_height(widgets, line, bias, widgets.len() as int)
}

/// The summed heights once the lines from `line` on are accounted for, where
/// `sum` is the height above `line`: the widgets pinned before a line, the
/// line and the widgets pinned after it add their heights to the sum in
/// turn, and a line that is not hidden (its scale is not 0) appends the sum
/// reached with it.
pub open spec fn spec_heights_from(
    heights: Seq<u64>,
    scale: Seq<u32>,
    breaks: Seq<Vec<usize>>,
    widgets: Seq<BlockWidget>,
    line: int,
    sum: u64,
) -> Seq<u64>
    decreases scale.len() - line,
{
    if line < 0 || line >= scale.len() {
        heights
    } else {
        let above = clip_height(sum + spec_pinned(widgets, line, Bias::Before));
        let next = clip_height(above + spec_line_height(scale[line], breaks[line]@));
        let below = clip_height(next + spec_pinned(widgets, line, Bias::After));
        spec_heights_from(
            if scale[line] != 0 { heights.push(next) } else { heights },
            scale,
            breaks,
            widgets,
            line + 1,
            below,
        )
    }
}

/// The summed heights brought up to date: accounting resumes at the line
/// whose number is the length of `heights`, from the last sum held and the
/// widgets pinned after its line.
pub open spec fn spec_heights_updated(
    heights: Seq<u64>,
    scale: Seq<u32>,
    breaks: Seq<Vec<usize>>,
    widgets: Seq<BlockWidget>,
) -> Seq<u64> {
    spec_heights_from(
        heights,
        scale,
        breaks,
        widgets,
        heights.len() as int,
        if heights.len() == 0 {
            0
        } else {
            clip_height(heights.last() + spec_pinned(widgets, heights.len() - 1, Bias::After))
        },
    )
}

/// The scale after one tick of folding: nine tenths of what it was, and 0
/// once that is below `SCALE_EPSILON`.
pub open spec fn spec_fold_step(s: u32) -> u32 {
    if s * 9 / 10 < SCALE_EPSILON {
        0
    } else {
        (s * 9 / 10) as u32
    }
}

/// The scale after one tick of unfolding: its distance from `SCALE_ONE` falls
/// to nine tenths, and to nothing once it is below `SCALE_EPSILON`.
pub open spec fn spec_unfold_step(s: u32) -> u32 {
    if SCALE_ONE - (SCALE_ONE - s) * 9 / 10 > SCALE_ONE - SCALE_EPSILON {
        SCALE_ONE
    } else {
        (SCALE_ONE - (SCALE_ONE - s) * 9 / 10) as u32
    }
}

/// The scale after one tick in the given direction.
pub open spec fn spec_step(folding: bool, s: u32) -> u32 {
    if folding {
        spec_fold_step(s)
    } else {
        spec_unfold_step(s)
    }
}

/// The scale at which an animation in the given direction ends.
pub open spec fn spec_goal(folding: bool) -> u32 {
    if folding {
        0
    } else {
        SCALE_ONE
    }
}

/// The smallest of `len` and the first `n` of `lines`.
pub open spec fn spec_cut(lines: Seq<usize>, n: int, len: int) -> int
    decreases n,
{
    if n <= 0 {
        len
    } else {
        let c = spec_cut(lines, n - 1, len);
        if lines[n - 1] < c {
            lines[n - 1] as int
        } else {
            c
        }
    }
}

/// The smallest of `len` and the numbers below `n` of the lines that have
/// another number of soft breaks in `after` than in `before`.
pub open spec fn spec_changed_cut(before: Seq<Vec<usize>>, after: Seq<Vec<usize>>, n: int, len: int) -> int
    decreases n,
{
    if n <= 0 {
        len
    } else {
        let c = spec_changed_cut(before, after, n - 1, len);
        if before[n - 1]@.len() != after[n - 1]@.len() && n - 1 < c {
            n - 1
        } else {
            c
        }
    }
}

/// The cut depends on the lines below `n` alone.
pub proof fn lemma_changed_cut_prefix(before: Seq<Vec<usize>>, a: Seq<Vec<usize>>, b: Seq<Vec<usize>>, n: int, len: int)
    requires
        0 <= n <= a.len() <= b.len(),
        forall|k: int| 0 <= k < n ==> a[k] == b[k],
        0 <= len,
    ensures
        spec_changed_cut(before, a, n, len) == spec_changed_cut(before, b, n, len),
        0 <= spec_changed_cut(before, a, n, len) <= len,
    decreases n,
{
    if n > 0 {
        lemma_changed_cut_prefix(before, a, b, n - 1, len);
    }
}

/// The selections after the merge sweep from index `cur` on: a selection
/// that merges with the next one takes up the merged selection and the next
/// one leaves; else the sweep goes on at the next.
pub open spec fn spec_sweep(sels: Seq<Sel>, cur: int) -> Seq<Sel>
    decreases sels.len() - cur,
{
    if 0 <= cur && cur + 1 < sels.len() {
        match sels[cur].spec_try_merge(sels[cur + 1]) {
            Some(merged) => spec_sweep(sels.update(cur, merged).remove(cur + 1), cur),
            None => spec_sweep(sels, cur + 1),
        }
    } else {
        sels
    }
}

/// The index of the latest selection after the merge sweep from index `cur`
/// on: it falls by one for each selection that leaves at or before it.
pub open spec fn spec_sweep_latest(sels: Seq<Sel>, cur: int, latest: int) -> int
    decreases sels.len() - cur,
{
    if 0 <= cur && cur + 1 < sels.len() {
        match sels[cur].spec_try_merge(sels[cur + 1]) {
            Some(merged) => spec_sweep_latest(
                sels.update(cur, merged).remove(cur + 1),
                cur,
                if cur + 1 <= latest { latest - 1 } else { latest },
            ),
            None => spec_sweep_latest(sels, cur + 1, latest),
        }
    } else {
        latest
    }
}

/// Each selection starts no later than the next one.
pub open spec fn sorted_by_start(sels: Seq<Sel>) -> bool {
    forall|i: int| 0 <= i < sels.len() - 1 ==> starts_le(#[trigger] sels[i], sels[i + 1])
}

/// `a` starts no later than `b`.
#[verifier::opaque]
pub open spec fn starts_le(a: Sel, b: Sel) -> bool {
    a.spec_start().spec_le(b.spec_start())
}

/// `a` and `b`, in this order, merge.
#[verifier::opaque]
pub open spec fn merges(a: Sel, b: Sel) -> bool {
    a.spec_try_merge(b) is Some
}

/// `a` ends before `b` starts.
#[verifier::opaque]
pub open spec fn ends_before(a: Sel, b: Sel) -> bool {
    a.spec_end().spec_lt(b.spec_start())
}

/// The first `n` selections each end before the next starts.
pub open spec fn strictly_ordered_upto(sels: Seq<Sel>, n: int) -> bool {
    forall|i: int| 0 <= i < n - 1 ==> ends_before(#[trigger] sels[i], sels[i + 1])
}

/// Each selection ends before the next one starts.
pub open spec fn strictly_ordered(sels: Seq<Sel>) -> bool {
    strictly_ordered_upto(sels, sels.len() as int)
}

/// A direction of cursor motion.
#[derive(Clone, Copy, Debug, PartialEq, Eq, Structural)]
pub enum Motion {
    Left,
    Right,
    Up,
    Down,
}

/// The cursor after it moved within the text `t`. It is first moved into the
/// text. Left and right it goes one character, lands before the boundary when
/// it moves left and after it when it moves right, and loses its sticky
/// column. Up and down it goes to the line above or below, to the byte that
/// its sticky column leads to, or the column at which it stands if it has
/// none, and keeps that column; on the first line it does not move up, on the
/// last not down.
pub open spec fn spec_moved_cursor(t: Seq<Seq<u8>>, cursor: Cursor, motion: Motion, tab_width: int) -> Cursor {
    let from = spec_clamp(t, cursor.biased_pos.pos);
    let column = match cursor.column {
        Some(c) => c,
        None => spec_column_of(t[from.line as int], from.byte as int, tab_width),
    };
    match motion {
        Motion::Left => Cursor {
            biased_pos: BiasedPos { pos: spec_move_left(t, from), bias: Bias::Before },
            column: None,
        },
        Motion::Right => Cursor {
            biased_pos: BiasedPos { pos: spec_move_right(t, from), bias: Bias::After },
            column: None,
        },
        Motion::Up => if from.line == 0 {
            cursor
        } else {
            Cursor {
                biased_pos: BiasedPos {
                    pos: Pos {
                        line: (from.line - 1) as usize,
                        byte: spec_byte_at_column(t[from.line - 1], tab_width, column, 0) as usize,
                    },
                    bias: cursor.biased_pos.bias,
                },
                column: Some(column),
            }
        },
        Motion::Down => if from.line + 1 >= t.len() {
            cursor
        } else {
            Cursor {
                biased_pos: BiasedPos {
                    pos: Pos {
                        line: (from.line + 1) as usize,
                        byte: spec_byte_at_column(t[from.line + 1], tab_width, column, 0) as usize,
                    },
                    bias: cursor.biased_pos.bias,
                },
                column: Some(column),
            }
        },
    }
}

/// The selection `sel` after its cursor moved. Unless `select`, the anchor
/// follows the cursor.
pub open spec fn spec_moved(t: Seq<Seq<u8>>, sel: Sel, select: bool, motion: Motion, tab_width: int) -> Sel {
    let to = spec_moved_cursor(t, sel.cursor, motion, tab_width);
    Sel { anchor: if select { sel.anchor } else { to.biased_pos }, cursor: to }
}

/// Moves a cursor within the text.
pub fn moved_cursor(text: &Text, cursor: Cursor, motion: Motion, tab_width: usize) -> (to: Cursor)
    requires
        text.wf(),
        tab_width > 0,
    ensures
        to == spec_moved_cursor(text@, cursor, motion, tab_width as int),
{
    let from = text.clamp(cursor.biased_pos.pos);
    proof {
        assert(text@.len() == text.lines@.len());
    }
    match motion {
        Motion::Left => Cursor {
            biased_pos: BiasedPos { pos: move_left(text, from), bias: Bias::Before },
            column: None,
        },
        Motion::Right => Cursor {
            biased_pos: BiasedPos { pos: move_right(text, from), bias: Bias::After },
            column: None,
        },
        Motion::Up => {
            if from.line == 0 {
                cursor
            } else {
                let column = match cursor.column {
                    Some(c) => c,
                    None => column_count(&text.lines[from.line], 0, from.byte, tab_width),
                };
                let byte = byte_at_column(&text.lines[from.line - 1], tab_width, column);
                Cursor {
                    biased_pos: BiasedPos {
                        pos: Pos { line: from.line - 1, byte },
                        bias: cursor.biased_pos.bias,
                    },
                    column: Some(column),
                }
            }
        },
        Motion::Down => {
            if from.line >= text.lines.len() - 1 {
                cursor
            } else {
                let column = match cursor.column {
                    Some(c) => c,
                    None => column_count(&text.lines[from.line], 0, from.byte, tab_width),
                };
                let byte = byte_at_column(&text.lines[from.line + 1], tab_width, column);
                Cursor {
                    biased_pos: BiasedPos {
                        pos: Pos { line: from.line + 1, byte },
                        bias: cursor.biased_pos.bias,
                    },
                    column: Some(column),
                }
            }
        },
    }
}

impl ViewMut {
    pub open spec fn line_count(&self) -> int {
        self.text@.len() as int
    }

    /// The invariant of the document state: the text has a line, a tab has a
    /// width, each per-line array has one slot per line and the summed heights
    /// no more, a scale is at most `SCALE_ONE`, there is a selection and the
    /// latest is one of them, and no line is folding and unfolding at once.
    pub open spec fn wf(&self) -> bool {
        &&& self.text.wf()
        &&& self.settings.tab_width > 0
        &&& self.inline_widget_inlays@.len() == self.line_count()
        &&& self.token_ends@.len() == self.line_count()
        &&& self.inline_text_inlays@.len() == self.line_count()
        &&& self.soft_breaks@.len() == self.line_count()
        &&& self.start_column_after_wrap@.len() == self.line_count()
        &&& self.fold_column@.len() == self.line_count()
        &&& self.scale@.len() == self.line_count()
        &&& self.summed_heights@.len() <= self.line_count()
        &&& forall|l: int| 0 <= l < self.scale@.len() ==> #[trigger] self.scale@[l] <= SCALE_ONE
        &&& self.sels@.len() >= 1
        &&& self.latest_sel_index < self.sels@.len()
        &&& distinct(self.folding_lines@)
        &&& distinct(self.unfolding_lines@)
        &&& forall|l: usize|
            !(self.folding_lines@.contains(l) && self.unfolding_lines@.contains(l))
    }

    /// Each selection ends before the next one starts.
    pub open spec fn sels_ordered(&self) -> bool {
        strictly_ordered(self.sels@)
    }

    /// Only a line whose fold is in motion has a scale between 0 and
    /// `SCALE_ONE`.
    pub open spec fn scales_settled(&self) -> bool {
        forall|l: int|
            0 <= l < self.scale@.len() ==> (#[trigger] self.scale@[l]) == 0 || self.scale@[l]
                == SCALE_ONE || self.folding_lines@.contains(l as usize)
                || self.unfolding_lines@.contains(l as usize)
    }

    /// The state of a text that was just opened: nothing wrapped, folded or
    /// pinned, every line fully shown, and one caret at the first position.
    pub fn new(settings: Settings, text: Text) -> (v: ViewMut)
        requires
            text.wf(),
            settings.tab_width > 0,
        ensures
            v.wf(),
            v.sels_ordered(),
            v.scales_settled(),
            v.settings == settings,
            v.text == text,
            v.max_column == None::<usize>,
            v.sels@ == seq![
                (Sel {
                    anchor: BiasedPos { pos: Pos { line: 0, byte: 0 }, bias: Bias::Before },
                    cursor: Cursor {
                        biased_pos: BiasedPos { pos: Pos { line: 0, byte: 0 }, bias: Bias::Before },
                        column: None,
                    },
                }),
            ],
            v.latest_sel_index == 0,
            v.folding_lines@.len() == 0,
            v.unfolding_lines@.len() == 0,
            v.block_widget_inlays@.len() == 0,
            v.line_inlays@.len() == 0,
            forall|l: int|
                0 <= l < v.line_count() ==> {
                    &&& (#[trigger] v.scale@[l]) == SCALE_ONE
                    &&& v.soft_breaks@[l]@.len() == 0
                    &&& v.inline_widget_inlays@[l]@.len() == 0
                    &&& v.token_ends@[l]@.len() == 0
                    &&& v.inline_text_inlays@[l]@.len() == 0
                    &&& v.start_column_after_wrap@[l] == 0
                    &&& v.fold_column@[l] == 0
                },
            v.summed_heights@ == spec_heights_updated(Seq::empty(), v.scale@, v.soft_breaks@, spec_between(v.block_widget_inlays@, v.line_inlays@)),
    {
        let n = text.line_count();
        let mut inline_widget_inlays: Vec<Vec<InlineWidget>> = Vec::new();
        let mut token_ends: Vec<Vec<usize>> = Vec::new();
        let mut inline_text_inlays: Vec<Vec<InlineText>> = Vec::new();
        let mut soft_breaks: Vec<Vec<usize>> = Vec::new();
        let mut start_column_after_wrap: Vec<usize> = Vec::new();
        let mut fold_column: Vec<usize> = Vec::new();
        let mut scale: Vec<u32> = Vec::new();
        let mut i: usize = 0;
        while i < n
            invariant
                i <= n,
                inline_widget_inlays@.len() == i,
                token_ends@.len() == i,
                inline_text_inlays@.len() == i,
                soft_breaks@.len() == i,
                start_column_after_wrap@.len() == i,
                fold_column@.len() == i,
                scale@.len() == i,
                forall|l: int|
                    0 <= l < i ==> {
                        &&& (#[trigger] scale@[l]) == SCALE_ONE
                        &&& soft_breaks@[l]@.len() == 0
                        &&& inline_widget_inlays@[l]@.len() == 0
                        &&& token_ends@[l]@.len() == 0
                        &&& inline_text_inlays@[l]@.len() == 0
                        &&& start_column_after_wrap@[l] == 0
                        &&& fold_column@[l] == 0
                    },
            decreases n - i,
        {
            inline_widget_inlays.push(Vec::new());
            token_ends.push(Vec::new());
            inline_text_inlays.push(Vec::new());
            soft_breaks.push(Vec::new());
            start_column_after_wrap.push(0);
            fold_column.push(0);
            scale.push(SCALE_ONE);
            i += 1;
        }
        let origin = BiasedPos { pos: Pos { line: 0, byte: 0 }, bias: Bias::Before };
        let mut sels: Vec<Sel> = Vec::new();
        sels.push(Sel::from(Cursor::from(origin)));
        let mut v = ViewMut {
            settings,
            max_column: None,
            text,
            inline_widget_inlays,
            token_ends,
            inline_text_inlays,
            soft_breaks,
            start_column_after_wrap,
            fold_column,
            scale,
            block_widget_inlays: Vec::new(),
            line_inlays: Vec::new(),
            summed_heights: Vec::new(),
            sels,
            latest_sel_index: 0,
            folding_lines: Vec::new(),
            unfolding_lines: Vec::new(),
        };
        v.update_summed_heights();
        v
    }

    /// Brings the summed heights up to date.
    pub fn update_summed_heights(&mut self)
        requires
            old(self).wf(),
        ensures
            final(self).wf(),
            final(self).summed_heights@ == spec_heights_updated(
                old(self).summed_heights@,
                old(self).scale@,
                old(self).soft_breaks@, spec_between(old(self).block_widget_inlays@, old(self).line_inlays@),
            ),
            final(self).settings == old(self).settings,
            final(self).block_widget_inlays == old(self).block_widget_inlays,
            final(self).line_inlays == old(self).line_inlays,
            final(self).max_column == old(self).max_column,
            final(self).text == old(self).text,
            final(self).inline_widget_inlays == old(self).inline_widget_inlays,
            final(self).token_ends == old(self).token_ends,
            final(self).inline_text_inlays == old(self).inline_text_inlays,
            final(self).soft_breaks == old(self).soft_breaks,
            final(self).start_column_after_wrap == old(self).start_column_after_wrap,
            final(self).fold_column == old(self).fold_column,
            final(self).scale == old(self).scale,
            final(self).sels == old(self).sels,
            final(self).latest_sel_index == old(self).latest_sel_index,
            final(self).folding_lines == old(self).folding_lines,
            final(self).unfolding_lines == old(self).unfolding_lines,
    {
        let between = between_lines(&self.block_widget_inlays, &self.line_inlays);
        let start = self.summed_heights.len();
        let mut sum: u64 = if start == 0 {
            0
        } else {
            add_height(
                self.summed_heights[start - 1],
                pinned_height(&between, start - 1, Bias::After),
            )
        };
        let n = self.scale.len();
        let mut line: usize = start;
        while line < n
            invariant
                start <= line <= n,
                n == self.scale@.len(),
                n == self.soft_breaks@.len(),
                self.summed_heights@.len() <= line,
                forall|l: int| 0 <= l < self.scale@.len() ==> #[trigger] self.scale@[l] <= SCALE_ONE,
                between@ == spec_between(self.block_widget_inlays@, self.line_inlays@),
                spec_heights_from(
                    self.summed_heights@,
                    self.scale@,
                    self.soft_breaks@,
                    spec_between(self.block_widget_inlays@, self.line_inlays@),
                    line as int,
                    sum,
                ) == spec_heights_updated(
                    old(self).summed_heights@,
                    old(self).scale@,
                    old(self).soft_breaks@, spec_between(old(self).block_widget_inlays@, old(self).line_inlays@),
                ),
                self.settings == old(self).settings,
                self.block_widget_inlays == old(self).block_widget_inlays,
                self.line_inlays == old(self).line_inlays,
                self.max_column == old(self).max_column,
                self.text == old(self).text,
                self.inline_widget_inlays == old(self).inline_widget_inlays,
                self.token_ends == old(self).token_ends,
                self.inline_text_inlays == old(self).inline_text_inlays,
                self.soft_breaks == old(self).soft_breaks,
                self.start_column_after_wrap == old(self).start_column_after_wrap,
                self.fold_column == old(self).fold_column,
                self.scale == old(self).scale,
                self.sels == old(self).sels,
                self.latest_sel_index == old(self).latest_sel_index,
                self.folding_lines == old(self).folding_lines,
                self.unfolding_lines == old(self).unfolding_lines,
            decreases n - line,
        {
            sum = add_height(sum, pinned_height(&between, line, Bias::Before));
            sum = add_height(sum, line_height(self.scale[line], self.soft_breaks[line].len()));
            if self.scale[line] != 0 {
                self.summed_heights.push(sum);
            }
            sum = add_height(sum, pinned_height(&between, line, Bias::After));
            line += 1;
        }
    }

    /// Each line is wrapped as `max_column` asks.
    pub open spec fn wrapped(&self) -> bool {
        forall|l: int|
            0 <= l < self.line_count() ==> {
                &&& (#[trigger] self.soft_breaks@[l])@ == spec_line_breaks(
                    self.text@[l],
                    spec_pins(
                        self.inline_widget_inlays@[l]@,
                        self.inline_text_inlays@[l]@,
                        self.settings.tab_width as int,
                        0,
                        0,
                    ),
                    self.token_ends@[l]@,
                    self.settings.tab_width as int,
                    self.max_column,
                )
                &&& self.start_column_after_wrap@[l] == spec_line_start(
                    self.text@[l],
                    spec_pins(
                        self.inline_widget_inlays@[l]@,
                        self.inline_text_inlays@[l]@,
                        self.settings.tab_width as int,
                        0,
                        0,
                    ),
                    self.token_ends@[l]@,
                    self.settings.tab_width as int,
                    self.max_column,
                )
            }
    }

    /// Whether `self` and `other` differ in nothing but the soft breaks, the
    /// continuation columns and the summed heights.
    pub open spec fn same_but_wrap(&self, other: &ViewMut) -> bool {
        &&& self.settings == other.settings
        &&& self.block_widget_inlays == other.block_widget_inlays
        &&& self.line_inlays == other.line_inlays
        &&& self.max_column == other.max_column
        &&& self.text == other.text
        &&& self.inline_widget_inlays == other.inline_widget_inlays
        &&& self.token_ends == other.token_ends
        &&& self.inline_text_inlays == other.inline_text_inlays
        &&& self.fold_column == other.fold_column
        &&& self.scale == other.scale
        &&& self.sels == other.sels
        &&& self.latest_sel_index == other.latest_sel_index
        &&& self.folding_lines == other.folding_lines
        &&& self.unfolding_lines == other.unfolding_lines
    }

    /// Sets the column behind which lines are wrapped, and reflows them if it
    /// changed.
    pub fn set_max_column(&mut self, max_column: Option<usize>)
        requires
            old(self).wf(),
        ensures
            final(self).wf(),
            final(self).max_column == max_column,
            old(self).max_column == max_column ==> *final(self) == *old(self),
            old(self).max_column != max_column ==> {
                &&& final(self).wrapped()
                &&& final(self).summed_heights@ == spec_heights_updated(
                    old(self).summed_heights@.subrange(
                        0,
                        spec_changed_cut(
                            old(self).soft_breaks@,
                            final(self).soft_breaks@,
                            old(self).line_count(),
                            old(self).summed_heights@.len() as int,
                        ),
                    ),
                    old(self).scale@,
                    final(self).soft_breaks@, spec_between(old(self).block_widget_inlays@, old(self).line_inlays@),
                )
            },
            final(self).settings == old(self).settings,
            final(self).block_widget_inlays == old(self).block_widget_inlays,
            final(self).line_inlays == old(self).line_inlays,
            final(self).text == old(self).text,
            final(self).inline_widget_inlays == old(self).inline_widget_inlays,
            final(self).token_ends == old(self).token_ends,
            final(self).inline_text_inlays == old(self).inline_text_inlays,
            final(self).fold_column == old(self).fold_column,
            final(self).scale == old(self).scale,
            final(self).sels == old(self).sels,
            final(self).latest_sel_index == old(self).latest_sel_index,
            final(self).folding_lines == old(self).folding_lines,
            final(self).unfolding_lines == old(self).unfolding_lines,
    {
        let same = match (self.max_column, max_column) {
            (None, None) => true,
            (Some(a), Some(b)) => a == b,
            _ => false,
        };
        if same {
            return ;
        }
        self.max_column = max_column;
        self.wrap_lines();
    }

    /// Reflows every line: its soft breaks and its continuation column are
    /// computed anew, the summed heights are cut at the first line whose
    /// number of soft breaks changed, and brought up to date.
    pub fn wrap_lines(&mut self)
        requires
            old(self).wf(),
        ensures
            final(self).wf(),
            final(self).wrapped(),
            final(self).same_but_wrap(old(self)),
            final(self).summed_heights@ == spec_heights_updated(
                old(self).summed_heights@.subrange(
                    0,
                    spec_changed_cut(
                        old(self).soft_breaks@,
                        final(self).soft_breaks@,
                        old(self).line_count(),
                        old(self).summed_heights@.len() as int,
                    ),
                ),
                old(self).scale@,
                final(self).soft_breaks@, spec_between(old(self).block_widget_inlays@, old(self).line_inlays@),
            ),
    {
        let n = self.text.line_count();
        let ghost len = self.summed_heights@.len() as int;
        let mut breaks: Vec<Vec<usize>> = Vec::new();
        let mut starts: Vec<usize> = Vec::new();
        let mut line: usize = 0;
        proof {
            assert(self.summed_heights@ =~= old(self).summed_heights@.subrange(0, len));
        }
        while line < n
            invariant
                line <= n,
                n == self.line_count(),
                self.wf(),
                self.same_but_wrap(old(self)),
                self.soft_breaks == old(self).soft_breaks,
                len == old(self).summed_heights@.len(),
                breaks@.len() == line,
                starts@.len() == line,
                forall|l: int|
                    0 <= l < line ==> {
                        &&& (#[trigger] breaks@[l])@ == spec_line_breaks(
                            self.text@[l],
                            spec_pins(
                        self.inline_widget_inlays@[l]@,
                        self.inline_text_inlays@[l]@,
                        self.settings.tab_width as int,
                        0,
                        0,
                    ),
                    self.token_ends@[l]@,
                            self.settings.tab_width as int,
                            self.max_column,
                        )
                        &&& starts@[l] == spec_line_start(
                            self.text@[l],
                            spec_pins(
                        self.inline_widget_inlays@[l]@,
                        self.inline_text_inlays@[l]@,
                        self.settings.tab_width as int,
                        0,
                        0,
                    ),
                    self.token_ends@[l]@,
                            self.settings.tab_width as int,
                            self.max_column,
                        )
                    },
                0 <= spec_changed_cut(old(self).soft_breaks@, breaks@, line as int, len) <= len,
                self.summed_heights@ == old(self).summed_heights@.subrange(
                    0,
                    spec_changed_cut(old(self).soft_breaks@, breaks@, line as int, len),
                ),
            decreases n - line,
        {
            let pins = inline_pins(
                &self.inline_widget_inlays[line],
                &self.inline_text_inlays[line],
                self.settings.tab_width,
            );
            let wrapped = wrap_line(
                &self.text.lines[line],
                &pins,
                &self.token_ends[line],
                self.settings.tab_width,
                self.max_column,
            );
            if wrapped.soft_breaks.len() != self.soft_breaks[line].len() && line
                < self.summed_heights.len() {
                self.summed_heights.truncate(line);
            }
            let ghost prev = breaks@;
            let ghost prev_starts = starts@;
            let ghost found = wrapped.soft_breaks@;
            proof {
                assert(self.text@[line as int] == self.text.lines@[line as int]@);
            }
            starts.push(wrapped.start_column_after_wrap);
            breaks.push(wrapped.soft_breaks);
            proof {
                assert(breaks@[line as int]@ == found);
                assert forall|l: int| 0 <= l < line implies breaks@[l] == prev[l] && starts@[l]
                    == prev_starts[l] by {}
                lemma_changed_cut_prefix(old(self).soft_breaks@, prev, breaks@, line as int, len);
                assert(self.summed_heights@ =~= old(self).summed_heights@.subrange(
                    0,
                    spec_changed_cut(old(self).soft_breaks@, breaks@, line + 1, len),
                ));
            }
            line += 1;
        }
        self.soft_breaks = breaks;
        self.start_column_after_wrap = starts;
        self.update_summed_heights();
    }

    /// Leaves one caret at `pos`.
    pub fn set_cursor_pos(&mut self, pos: BiasedPos)
        requires
            old(self).wf(),
        ensures
            final(self).wf(),
            final(self).sels_ordered(),
            final(self).sels@ == seq![
                (Sel { anchor: pos, cursor: Cursor { biased_pos: pos, column: None } }),
            ],
            final(self).latest_sel_index == 0,
            final(self).same_document(old(self)),
    {
        self.sels.clear();
        self.sels.push(Sel::from(Cursor::from(pos)));
        self.latest_sel_index = 0;
    }

    /// Whether `self` and `other` differ in nothing but their selections.
    pub open spec fn same_document(&self, other: &ViewMut) -> bool {
        &&& self.settings == other.settings
        &&& self.block_widget_inlays == other.block_widget_inlays
        &&& self.line_inlays == other.line_inlays
        &&& self.max_column == other.max_column
        &&& self.text == other.text
        &&& self.inline_widget_inlays == other.inline_widget_inlays
        &&& self.token_ends == other.token_ends
        &&& self.inline_text_inlays == other.inline_text_inlays
        &&& self.soft_breaks == other.soft_breaks
        &&& self.start_column_after_wrap == other.start_column_after_wrap
        &&& self.fold_column == other.fold_column
        &&& self.scale == other.scale
        &&& self.summed_heights == other.summed_heights
        &&& self.folding_lines == other.folding_lines
        &&& self.unfolding_lines == other.unfolding_lines
    }

    /// Adds a caret at `pos`. It takes the place of the first selection that
    /// does not end before `pos`, if that one does not start behind `pos`, and
    /// else goes in front of it. The caret becomes the latest selection.
    /// Selections of which each ends before the next starts stay so.
    pub fn insert_cursor(&mut self, pos: BiasedPos)
        requires
            old(self).wf(),
        ensures
            final(self).wf(),
            final(self).same_document(old(self)),
            final(self).latest_sel_index <= old(self).sels@.len(),
            forall|j: int|
                0 <= j < final(self).latest_sel_index ==> (#[trigger] old(self).sels@[j]).spec_end().spec_lt(
                    pos,
                ),
            final(self).latest_sel_index < old(self).sels@.len() ==> !old(self).sels@[final(self).latest_sel_index as int].spec_end().spec_lt(pos),
            final(self).sels@ == (if final(self).latest_sel_index < old(self).sels@.len() && !pos.spec_lt(
                old(self).sels@[final(self).latest_sel_index as int].spec_start(),
            ) {
                old(self).sels@.update(
                    final(self).latest_sel_index as int,
                    Sel { anchor: pos, cursor: Cursor { biased_pos: pos, column: None } },
                )
            } else {
                old(self).sels@.insert(
                    final(self).latest_sel_index as int,
                    Sel { anchor: pos, cursor: Cursor { biased_pos: pos, column: None } },
                )
            }),
            old(self).sels_ordered() ==> final(self).sels_ordered(),
    {
        let sel = Sel::from(Cursor::from(pos));
        let mut index: usize = 0;
        while index < self.sels.len() && self.sels[index].end().lt(pos)
            invariant
                index <= self.sels@.len(),
                *self == *old(self),
                forall|j: int| 0 <= j < index ==> (#[trigger] self.sels@[j]).spec_end().spec_lt(pos),
            decreases self.sels@.len() - index,
        {
            index += 1;
        }
        if index < self.sels.len() && !pos.lt(self.sels[index].start()) {
            self.sels.set(index, sel);
        } else {
            self.sels.insert(index, sel);
        }
        self.latest_sel_index = index;
        proof {
            if old(self).sels_ordered() {
                lemma_insert_keeps_order(old(self).sels@, pos, index as int);
            }
        }
    }

    /// Moves the cursor of the latest selection to `pos`, and its anchor too
    /// unless `select`. The selections before it that merge with it, as far as
    /// they follow one another, leave, and so do those behind it.
    #[verifier::rlimit(100)]
    pub fn move_cursor_to(&mut self, select: bool, pos: BiasedPos)
        requires
            old(self).wf(),
        ensures
            final(self).wf(),
            final(self).same_document(old(self)),
            final(self).latest_sel_index <= old(self).latest_sel_index,
            final(self).sels@.len() <= old(self).sels@.len(),
            old(self).sels_ordered() ==> final(self).sels_ordered(),
            ({
                let before = old(self).sels@;
                let latest = old(self).latest_sel_index as int;
                let moved = Sel {
                    anchor: if select { before[latest].anchor } else { pos },
                    cursor: Cursor { biased_pos: pos, column: before[latest].cursor.column },
                };
                let first = final(self).latest_sel_index as int;
                let next = before.len() - final(self).sels@.len() + first + 1;
                &&& latest < next <= before.len()
                &&& final(self).sels@ == before.subrange(0, first).push(moved) + before.subrange(
                    next,
                    before.len() as int,
                )
                &&& forall|j: int| first <= j < latest ==> merges(#[trigger] before[j], moved)
                &&& first == 0 || !merges(before[first - 1], moved)
                &&& forall|j: int| latest < j < next ==> merges(moved, #[trigger] before[j])
                &&& next == before.len() || !merges(moved, before[next])
            }),
    {
        let latest = self.latest_sel_index;
        let was = self.sels[latest];
        let moved = Sel {
            anchor: if select { was.anchor } else { pos },
            cursor: Cursor { biased_pos: pos, column: was.cursor.column },
        };
        let mut first: usize = latest;
        while first > 0 && do_merge(self.sels[first - 1], moved)
            invariant
                first <= latest < self.sels@.len(),
                *self == *old(self),
                forall|j: int| first <= j < latest ==> merges(#[trigger] self.sels@[j], moved),
            decreases first,
        {
            first -= 1;
        }
        let count = self.sels.len();
        let mut next: usize = latest + 1;
        while next < self.sels.len() && do_merge(moved, self.sels[next])
            invariant
                latest < next <= self.sels@.len(),
                *self == *old(self),
                forall|j: int| latest < j < next ==> merges(moved, #[trigger] self.sels@[j]),
            decreases self.sels@.len() - next,
        {
            next += 1;
        }
        self.sels.set(latest, moved);
        remove_slots(&mut self.sels, latest + 1, next - latest - 1);
        remove_slots(&mut self.sels, first, latest - first);
        self.latest_sel_index = first;
        proof {
            let before = old(self).sels@;
            lemma_run_gives_way(before, moved, first as int, latest as int, next as int);
            if old(self).sels_ordered() {
                lemma_move_keeps_order(before, moved, first as int, next as int);
            }
        }
    }

    /// Merges each selection with those behind it that it overlaps or
    /// touches. Selections that were sorted by their start end up each
    /// before the next.
    pub fn merge_sels(&mut self)
        requires
            old(self).wf(),
        ensures
            final(self).wf(),
            final(self).same_document(old(self)),
            final(self).sels@ == spec_sweep(old(self).sels@, 0),
            final(self).latest_sel_index == spec_sweep_latest(
                old(self).sels@,
                0,
                old(self).latest_sel_index as int,
            ),
            sorted_by_start(old(self).sels@) ==> final(self).sels_ordered(),
    {
        let mut cur: usize = 0;
        while cur < self.sels.len() - 1
            invariant
                self.wf(),
                self.same_document(old(self)),
                cur < self.sels@.len(),
                spec_sweep(self.sels@, cur as int) == spec_sweep(old(self).sels@, 0),
                spec_sweep_latest(self.sels@, cur as int, self.latest_sel_index as int)
                    == spec_sweep_latest(old(self).sels@, 0, old(self).latest_sel_index as int),
            decreases self.sels@.len() - cur,
        {
            let ghost prev = self.sels@;
            match self.sels[cur].try_merge(self.sels[cur + 1]) {
                Some(merged) => {
                    self.sels.set(cur, merged);
                    self.sels.remove(cur + 1);
                    if cur + 1 <= self.latest_sel_index {
                        self.latest_sel_index = self.latest_sel_index - 1;
                    }
                    proof {
                        assert(self.sels@ == prev.update(cur as int, merged).remove(cur + 1));
                    }
                },
                None => {
                    cur += 1;
                },
            }
        }
        proof {
            if sorted_by_start(old(self).sels@) {
                sweep_orders(old(self).sels@, 0);
            }
        }
    }

    /// The selections after each cursor moved one step in the given
    /// direction, before any of them are merged.
    pub open spec fn moved_sels(&self, select: bool, motion: Motion) -> Seq<Sel> {
        Seq::new(
            self.sels@.len(),
            |i: int| spec_moved(self.text@, self.sels@[i], select, motion, self.settings.tab_width as int),
        )
    }

    /// Whether the selections stay sorted by their start when each cursor
    /// moves one step in the given direction: the motion is then accepted.
    pub fn motion_keeps_order(&self, select: bool, motion: Motion) -> (b: bool)
        requires
            self.wf(),
        ensures
            b == sorted_by_start(self.moved_sels(select, motion)),
    {
        let first = self.sels[0];
        let to = moved_cursor(&self.text, first.cursor, motion, self.settings.tab_width);
        let mut prev = Sel { anchor: if select { first.anchor } else { to.biased_pos }, cursor: to };
        let mut i: usize = 1;
        while i < self.sels.len()
            invariant
                1 <= i <= self.sels@.len(),
                self.wf(),
                prev == self.moved_sels(select, motion)[i - 1],
                forall|k: int|
                    0 <= k < i - 1 ==> starts_le(
                        #[trigger] self.moved_sels(select, motion)[k],
                        self.moved_sels(select, motion)[k + 1],
                    ),
            decreases self.sels@.len() - i,
        {
            let sel = self.sels[i];
            let to = moved_cursor(&self.text, sel.cursor, motion, self.settings.tab_width);
            let next = Sel { anchor: if select { sel.anchor } else { to.biased_pos }, cursor: to };
            if !starts_in_order(prev, next) {
                proof {
                    assert(!starts_le(
                        self.moved_sels(select, motion)[i - 1],
                        self.moved_sels(select, motion)[i as int],
                    ));
                }
                return false;
            }
            prev = next;
            i += 1;
        }
        true
    }

    /// Moves every cursor one step in the given direction, and its anchor too
    /// unless `select`, and merges the selections that meet. The motion must
    /// leave the selections sorted by their start; they end up each before
    /// the next.
    pub fn modify_sels(&mut self, select: bool, motion: Motion)
        requires
            old(self).wf(),
            sorted_by_start(old(self).moved_sels(select, motion)),
        ensures
            final(self).wf(),
            final(self).same_document(old(self)),
            final(self).sels_ordered(),
            final(self).sels@ == spec_sweep(old(self).moved_sels(select, motion), 0),
            final(self).latest_sel_index == spec_sweep_latest(
                old(self).moved_sels(select, motion),
                0,
                old(self).latest_sel_index as int,
            ),
    {
        let mut i: usize = 0;
        while i < self.sels.len()
            invariant
                i <= self.sels@.len(),
                self.wf(),
                self.same_document(old(self)),
                self.latest_sel_index == old(self).latest_sel_index,
                self.sels@.len() == old(self).sels@.len(),
                forall|k: int|
                    0 <= k < self.sels@.len() ==> #[trigger] self.sels@[k] == (if k < i {
                        old(self).moved_sels(select, motion)[k]
                    } else {
                        old(self).sels@[k]
                    }),
            decreases self.sels@.len() - i,
        {
            let sel = self.sels[i];
            let to = moved_cursor(&self.text, sel.cursor, motion, self.settings.tab_width);
            self.sels.set(i, Sel { anchor: if select { sel.anchor } else { to.biased_pos }, cursor: to });
            i += 1;
        }
        proof {
            assert(self.sels@ =~= old(self).moved_sels(select, motion));
        }
        self.merge_sels();
    }

    /// Moves every cursor one character to the left.
    pub fn move_cursors_left(&mut self, select: bool)
        requires
            old(self).wf(),
            sorted_by_start(old(self).moved_sels(select, Motion::Left)),
        ensures
            final(self).wf(),
            final(self).same_document(old(self)),
            final(self).sels_ordered(),
            final(self).sels@ == spec_sweep(old(self).moved_sels(select, Motion::Left), 0),
            final(self).latest_sel_index == spec_sweep_latest(
                old(self).moved_sels(select, Motion::Left),
                0,
                old(self).latest_sel_index as int,
            ),
    {
        self.modify_sels(select, Motion::Left);
    }

    /// Moves every cursor one character to the right.
    pub fn move_cursors_right(&mut self, select: bool)
        requires
            old(self).wf(),
            sorted_by_start(old(self).moved_sels(select, Motion::Right)),
        ensures
            final(self).wf(),
            final(self).same_document(old(self)),
            final(self).sels_ordered(),
            final(self).sels@ == spec_sweep(old(self).moved_sels(select, Motion::Right), 0),
            final(self).latest_sel_index == spec_sweep_latest(
                old(self).moved_sels(select, Motion::Right),
                0,
                old(self).latest_sel_index as int,
            ),
    {
        self.modify_sels(select, Motion::Right);
    }

    /// Moves every cursor to the line above.
    pub fn move_cursors_up(&mut self, select: bool)
        requires
            old(self).wf(),
            sorted_by_start(old(self).moved_sels(select, Motion::Up)),
        ensures
            final(self).wf(),
            final(self).same_document(old(self)),
            final(self).sels_ordered(),
            final(self).sels@ == spec_sweep(old(self).moved_sels(select, Motion::Up), 0),
            final(self).latest_sel_index == spec_sweep_latest(
                old(self).moved_sels(select, Motion::Up),
                0,
                old(self).latest_sel_index as int,
            ),
    {
        self.modify_sels(select, Motion::Up);
    }

    /// Moves every cursor to the line below.
    pub fn move_cursors_down(&mut self, select: bool)
        requires
            old(self).wf(),
            sorted_by_start(old(self).moved_sels(select, Motion::Down)),
        ensures
            final(self).wf(),
            final(self).same_document(old(self)),
            final(self).sels_ordered(),
            final(self).sels@ == spec_sweep(old(self).moved_sels(select, Motion::Down), 0),
            final(self).latest_sel_index == spec_sweep_latest(
                old(self).moved_sels(select, Motion::Down),
                0,
                old(self).latest_sel_index as int,
            ),
    {
        self.modify_sels(select, Motion::Down);
    }

    /// Starts folding a line behind `fold_column`.
    pub fn fold_line(&mut self, line_index: usize, fold_column: usize)
        requires
            old(self).wf(),
            line_index < old(self).line_count(),
        ensures
            final(self).wf(),
            final(self).fold_column@ == old(self).fold_column@.update(line_index as int, fold_column),
            forall|l: usize|
                final(self).folding_lines@.contains(l) <==> (l == line_index || old(self).folding_lines@.contains(l)),
            forall|l: usize|
                final(self).unfolding_lines@.contains(l) <==> (l != line_index && old(self).unfolding_lines@.contains(l)),
            old(self).scales_settled() ==> final(self).scales_settled(),
            final(self).settings == old(self).settings,
            final(self).block_widget_inlays == old(self).block_widget_inlays,
            final(self).line_inlays == old(self).line_inlays,
            final(self).max_column == old(self).max_column,
            final(self).text == old(self).text,
            final(self).inline_widget_inlays == old(self).inline_widget_inlays,
            final(self).token_ends == old(self).token_ends,
            final(self).inline_text_inlays == old(self).inline_text_inlays,
            final(self).soft_breaks == old(self).soft_breaks,
            final(self).start_column_after_wrap == old(self).start_column_after_wrap,
            final(self).scale == old(self).scale,
            final(self).summed_heights == old(self).summed_heights,
            final(self).sels == old(self).sels,
            final(self).latest_sel_index == old(self).latest_sel_index,
    {
        self.fold_column.set(line_index, fold_column);
        take_out(&mut self.unfolding_lines, line_index);
        put_in(&mut self.folding_lines, line_index);
    }

    /// One tick of the fold animation: each folding line and each unfolding
    /// line takes a step, a line that reached its goal leaves its set, the
    /// summed heights are cut at the first line that moved and brought up to
    /// date. Says whether a fold was in motion; if none was, nothing changes.
    pub fn update_fold_animations(&mut self) -> (moving: bool)
        requires
            old(self).wf(),
        ensures
            final(self).wf(),
            moving == (old(self).folding_lines@.len() > 0 || old(self).unfolding_lines@.len() > 0),
            !moving ==> *final(self) == *old(self),
            final(self).scale@.len() == old(self).scale@.len(),
            forall|l: int|
                0 <= l < old(self).scale@.len() ==> #[trigger] final(self).scale@[l] == (if old(
                    self,
                ).folding_lines@.contains(l as usize) {
                    spec_fold_step(old(self).scale@[l])
                } else if old(self).unfolding_lines@.contains(l as usize) {
                    spec_unfold_step(old(self).scale@[l])
                } else {
                    old(self).scale@[l]
                }),
            forall|y: usize|
                final(self).folding_lines@.contains(y) <==> (old(self).folding_lines@.contains(y) && y
                    < old(self).scale@.len() && spec_fold_step(old(self).scale@[y as int]) != 0),
            forall|y: usize|
                final(self).unfolding_lines@.contains(y) <==> (old(self).unfolding_lines@.contains(y)
                    && y < old(self).scale@.len() && spec_unfold_step(old(self).scale@[y as int])
                    != SCALE_ONE),
            moving ==> final(self).summed_heights@ == spec_heights_updated(
                old(self).summed_heights@.subrange(
                    0,
                    spec_cut(
                        old(self).unfolding_lines@,
                        old(self).unfolding_lines@.len() as int,
                        spec_cut(
                            old(self).folding_lines@,
                            old(self).folding_lines@.len() as int,
                            old(self).summed_heights@.len() as int,
                        ),
                    ),
                ),
                final(self).scale@,
                old(self).soft_breaks@, spec_between(old(self).block_widget_inlays@, old(self).line_inlays@),
            ),
            old(self).scales_settled() ==> final(self).scales_settled(),
            final(self).settings == old(self).settings,
            final(self).block_widget_inlays == old(self).block_widget_inlays,
            final(self).line_inlays == old(self).line_inlays,
            final(self).max_column == old(self).max_column,
            final(self).text == old(self).text,
            final(self).inline_widget_inlays == old(self).inline_widget_inlays,
            final(self).token_ends == old(self).token_ends,
            final(self).inline_text_inlays == old(self).inline_text_inlays,
            final(self).soft_breaks == old(self).soft_breaks,
            final(self).start_column_after_wrap == old(self).start_column_after_wrap,
            final(self).fold_column == old(self).fold_column,
            final(self).sels == old(self).sels,
            final(self).latest_sel_index == old(self).latest_sel_index,
    {
        if self.folding_lines.len() == 0 && self.unfolding_lines.len() == 0 {
            proof {
                assert(self.scale@ =~= old(self).scale@);
            }
            return false;
        }
        let kept = step_lines(&mut self.scale, &mut self.summed_heights, &self.folding_lines, true);
        let ghost mid = self.summed_heights@;
        self.folding_lines = kept;
        let kept = step_lines(&mut self.scale, &mut self.summed_heights, &self.unfolding_lines, false);
        self.unfolding_lines = kept;
        proof {
            let c = spec_cut(
                old(self).unfolding_lines@,
                old(self).unfolding_lines@.len() as int,
                mid.len() as int,
            );
            assert(self.summed_heights@ =~= old(self).summed_heights@.subrange(0, c));
            assert forall|l: usize|
                !(self.folding_lines@.contains(l) && self.unfolding_lines@.contains(l)) by {
                assert(!(old(self).folding_lines@.contains(l) && old(self).unfolding_lines@.contains(
                    l,
                )));
            }
        }
        self.update_summed_heights();
        let n = self.scale.len();
        proof {
            if old(self).scales_settled() {
                assert forall|l: int| 0 <= l < self.scale@.len() implies (#[trigger] self.scale@[l])
                    == 0 || self.scale@[l] == SCALE_ONE || self.folding_lines@.contains(l as usize)
                    || self.unfolding_lines@.contains(l as usize) by {
                    assert(l < n);
                    let y = l as usize;
                    assert(y as int == l);
                    assert(old(self).scale@[l] == 0 || old(self).scale@[l] == SCALE_ONE || old(
                        self,
                    ).folding_lines@.contains(y) || old(self).unfolding_lines@.contains(y));
                }
            }
        }
        true
    }

    /// Starts unfolding a line.
    pub fn unfold_line(&mut self, line_index: usize)
        requires
            old(self).wf(),
        ensures
            final(self).wf(),
            forall|l: usize|
                final(self).unfolding_lines@.contains(l) <==> (l == line_index || old(self).unfolding_lines@.contains(l)),
            forall|l: usize|
                final(self).folding_lines@.contains(l) <==> (l != line_index && old(self).folding_lines@.contains(l)),
            old(self).scales_settled() ==> final(self).scales_settled(),
            final(self).settings == old(self).settings,
            final(self).block_widget_inlays == old(self).block_widget_inlays,
            final(self).line_inlays == old(self).line_inlays,
            final(self).max_column == old(self).max_column,
            final(self).text == old(self).text,
            final(self).inline_widget_inlays == old(self).inline_widget_inlays,
            final(self).token_ends == old(self).token_ends,
            final(self).inline_text_inlays == old(self).inline_text_inlays,
            final(self).soft_breaks == old(self).soft_breaks,
            final(self).start_column_after_wrap == old(self).start_column_after_wrap,
            final(self).fold_column == old(self).fold_column,
            final(self).scale == old(self).scale,
            final(self).summed_heights == old(self).summed_heights,
            final(self).sels == old(self).sels,
            final(self).latest_sel_index == old(self).latest_sel_index,
    {
        take_out(&mut self.folding_lines, line_index);
        put_in(&mut self.unfolding_lines, line_index);
    }
}

/// Whether `a` starts no later than `b`.
pub fn starts_in_order(a: Sel, b: Sel) -> (r: bool)
    ensures
        r == starts_le(a, b),
{
    reveal(starts_le);
    a.start().le(b.start())
}

/// Whether `a` and `b`, in this order, merge.
pub fn do_merge(a: Sel, b: Sel) -> (r: bool)
    ensures
        r == merges(a, b),
{
    reveal(merges);
    a.try_merge(b).is_some()
}

/// One tick of a scale in the given direction.
pub fn step(folding: bool, s: u32) -> (r: u32)
    requires
        s <= SCALE_ONE,
    ensures
        r == spec_step(folding, s),
        r <= SCALE_ONE,
        folding ==> r <= s,
        !folding ==> r >= s,
{
    if folding {
        let n: u32 = s / 10 * 9 + s % 10 * 9 / 10;
        if n < SCALE_EPSILON {
            0
        } else {
            n
        }
    } else {
        let d: u32 = SCALE_ONE - s;
        let n: u32 = SCALE_ONE - (d / 10 * 9 + d % 10 * 9 / 10);
        if n > SCALE_ONE - SCALE_EPSILON {
            SCALE_ONE
        } else {
            n
        }
    }
}

/// While a fold animation runs, the scale of a folding line never grows and
/// that of an unfolding line never shrinks, and both stay within 0 and
/// `SCALE_ONE`.
pub proof fn steps_monotonic(s: u32)
    requires
        s <= SCALE_ONE,
    ensures
        spec_fold_step(s) <= s,
        s <= spec_unfold_step(s) <= SCALE_ONE,
{
}

/// One tick for each of `lines`, which are folding or unfolding: the scale of
/// each that exists takes a step, those that have not reached their goal are
/// handed back, and the summed heights are cut at the smallest of them.
pub fn step_lines(scale: &mut Vec<u32>, heights: &mut Vec<u64>, lines: &Vec<usize>, folding: bool) -> (kept: Vec<usize>)
    requires
        distinct(lines@),
        forall|l: int| 0 <= l < old(scale)@.len() ==> #[trigger] old(scale)@[l] <= SCALE_ONE,
    ensures
        final(scale)@.len() == old(scale)@.len(),
        forall|l: int|
            0 <= l < final(scale)@.len() ==> #[trigger] final(scale)@[l] == (if lines@.contains(
                l as usize,
            ) {
                spec_step(folding, old(scale)@[l])
            } else {
                old(scale)@[l]
            }),
        forall|l: int| 0 <= l < final(scale)@.len() ==> #[trigger] final(scale)@[l] <= SCALE_ONE,
        distinct(kept@),
        forall|y: usize|
            kept@.contains(y) <==> (lines@.contains(y) && y < old(scale)@.len() && spec_step(
                folding,
                old(scale)@[y as int],
            ) != spec_goal(folding)),
        0 <= spec_cut(lines@, lines@.len() as int, old(heights)@.len() as int) <= old(heights)@.len(),
        final(heights)@ == old(heights)@.subrange(
            0,
            spec_cut(lines@, lines@.len() as int, old(heights)@.len() as int),
        ),
{
    let mut kept: Vec<usize> = Vec::new();
    let mut i: usize = 0;
    proof {
        assert(heights@ =~= old(heights)@.subrange(0, old(heights)@.len() as int));
    }
    while i < lines.len()
        invariant
            i <= lines.len(),
            distinct(lines@),
            scale@.len() == old(scale)@.len(),
            forall|l: int| 0 <= l < old(scale)@.len() ==> #[trigger] old(scale)@[l] <= SCALE_ONE,
            forall|l: int|
                0 <= l < scale@.len() ==> #[trigger] scale@[l] == (if lines@.subrange(
                    0,
                    i as int,
                ).contains(l as usize) {
                    spec_step(folding, old(scale)@[l])
                } else {
                    old(scale)@[l]
                }),
            forall|l: int| 0 <= l < scale@.len() ==> #[trigger] scale@[l] <= SCALE_ONE,
            distinct(kept@),
            forall|y: usize|
                kept@.contains(y) <==> (lines@.subrange(0, i as int).contains(y) && y < old(
                    scale,
                )@.len() && spec_step(folding, old(scale)@[y as int]) != spec_goal(folding)),
            0 <= spec_cut(lines@, i as int, old(heights)@.len() as int) <= old(heights)@.len(),
            heights@ == old(heights)@.subrange(
                0,
                spec_cut(lines@, i as int, old(heights)@.len() as int),
            ),
        decreases lines.len() - i,
    {
        let line = lines[i];
        let ghost before = lines@.subrange(0, i as int);
        let ghost after = lines@.subrange(0, i + 1);
        let ghost old_kept = kept@;
        let ghost mut pushed = false;
        proof {
            assert(after =~= before.push(line));
            assert(!before.contains(line)) by {
                if before.contains(line) {
                    let k = choose|k: int| 0 <= k < before.len() && before[k] == line;
                    assert(lines@[k] == lines@[i as int]);
                }
            }
            assert forall|y: usize| after.contains(y) <==> (y == line || before.contains(y)) by {
                if before.contains(y) {
                    let k = choose|k: int| 0 <= k < before.len() && before[k] == y;
                    assert(after[k] == y);
                }
                if y == line {
                    assert(after[i as int] == y);
                }
                if after.contains(y) {
                    let k = choose|k: int| 0 <= k < after.len() && after[k] == y;
                    if k < i {
                        assert(before[k] == y);
                    }
                }
            }
        }
        if line < scale.len() {
            proof {
                assert(scale@[line as int] == old(scale)@[line as int]);
            }
            let next = step(folding, scale[line]);
            scale.set(line, next);
            let goal: u32 = if folding { 0 } else { SCALE_ONE };
            if next != goal {
                proof {
                    assert(!old_kept.contains(line));
                }
                kept.push(line);
                proof {
                    pushed = true;
                    assert(kept@[old_kept.len() as int] == line);
                    assert forall|y: usize| kept@.contains(y) <==> (y == line || old_kept.contains(y)) by {
                        if old_kept.contains(y) {
                            let k = choose|k: int| 0 <= k < old_kept.len() && old_kept[k] == y;
                            assert(kept@[k] == y);
                        }
                        if kept@.contains(y) && y != line {
                            let k = choose|k: int| 0 <= k < kept@.len() && kept@[k] == y;
                            assert(old_kept[k] == y);
                        }
                    }
                    assert forall|a: int, b: int| 0 <= a < b < kept@.len() implies kept@[a] != kept@[b] by {
                        if b == old_kept.len() {
                            assert(old_kept[a] == kept@[a]);
                            assert(old_kept.contains(kept@[a]));
                        } else {
                            assert(old_kept[a] != old_kept[b]);
                        }
                    }
                }
            }
        }
        if line < heights.len() {
            heights.truncate(line);
        }
        proof {
            assert(heights@ =~= old(heights)@.subrange(
                0,
                spec_cut(lines@, i + 1, old(heights)@.len() as int),
            ));
            assert(!old_kept.contains(line));
            assert(pushed <==> (line < old(scale)@.len() && spec_step(
                folding,
                old(scale)@[line as int],
            ) != spec_goal(folding)));
            assert(!pushed ==> kept@ == old_kept);
            assert forall|y: usize|
                kept@.contains(y) <==> (after.contains(y) && y < old(scale)@.len() && spec_step(
                    folding,
                    old(scale)@[y as int],
                ) != spec_goal(folding)) by {
                if y == line {
                    assert(after.contains(line));
                    if pushed {
                        assert(kept@.contains(line));
                    }
                } else {
                    assert(after.contains(y) <==> before.contains(y));
                    assert(kept@.contains(y) <==> old_kept.contains(y));
                }
            }
        }
        i += 1;
    }
    proof {
        assert(lines@.subrange(0, lines@.len() as int) =~= lines@);
    }
    kept
}

/// Between two lists of soft breaks of the same lengths nothing is cut.
pub proof fn lemma_changed_cut_same(before: Seq<Vec<usize>>, after: Seq<Vec<usize>>, n: int, len: int)
    requires
        0 <= n <= before.len(),
        n <= after.len(),
        forall|l: int| 0 <= l < n ==> (#[trigger] before[l])@.len() == after[l]@.len(),
    ensures
        spec_changed_cut(before, after, n, len) == len,
    decreases n,
{
    if n > 0 {
        lemma_changed_cut_same(before, after, n - 1, len);
    }
}

/// Summed heights of which there is one for each line are up to date.
pub proof fn full_heights_are_up_to_date(
    heights: Seq<u64>,
    scale: Seq<u32>,
    breaks: Seq<Vec<usize>>,
    widgets: Seq<BlockWidget>,
)
    requires
        heights.len() >= scale.len(),
    ensures
        spec_heights_updated(heights, scale, breaks, widgets) == heights,
{
}

/// Where no line is hidden, bringing the summed heights up to date leaves
/// one for each line.
pub proof fn heights_fill_up(
    heights: Seq<u64>,
    scale: Seq<u32>,
    breaks: Seq<Vec<usize>>,
    widgets: Seq<BlockWidget>,
    line: int,
    sum: u64,
)
    requires
        heights.len() == line,
        0 <= line <= scale.len(),
        forall|l: int| 0 <= l < scale.len() ==> #[trigger] scale[l] != 0,
    ensures
        spec_heights_from(heights, scale, breaks, widgets, line, sum).len() == scale.len(),
    decreases scale.len() - line,
{
    if line < scale.len() {
        assert(scale[line] != 0);
        let above = clip_height(sum + spec_pinned(widgets, line, Bias::Before));
        let next = clip_height(above + spec_line_height(scale[line], breaks[line]@));
        let below = clip_height(next + spec_pinned(widgets, line, Bias::After));
        heights_fill_up(heights.push(next), scale, breaks, widgets, line + 1, below);
    }
}

/// A reflow that follows a reflow changes nothing, the summed heights
/// included, where there is a summed height for each line, as there is after
/// a reflow of a text without hidden lines: if `after` is what a reflow makes
/// of the wrapped state `before`, both have the same soft breaks,
/// continuation columns and summed heights.
pub proof fn second_reflow_changes_nothing(before: ViewMut, after: ViewMut)
    requires
        before.wf(),
        before.wrapped(),
        before.summed_heights@.len() == before.line_count(),
        after.wf(),
        after.wrapped(),
        after.same_but_wrap(&before),
        after.summed_heights@ == spec_heights_updated(
            before.summed_heights@.subrange(
                0,
                spec_changed_cut(
                    before.soft_breaks@,
                    after.soft_breaks@,
                    before.line_count(),
                    before.summed_heights@.len() as int,
                ),
            ),
            before.scale@,
            after.soft_breaks@,
            spec_between(before.block_widget_inlays@, before.line_inlays@),
        ),
    ensures
        after.summed_heights@ == before.summed_heights@,
        after.start_column_after_wrap@ == before.start_column_after_wrap@,
        forall|l: int|
            0 <= l < before.line_count() ==> (#[trigger] after.soft_breaks@[l])@
                == before.soft_breaks@[l]@,
{
    reflow_idempotent(after, before);
    let len = before.summed_heights@.len() as int;
    assert forall|l: int| 0 <= l < before.line_count() implies (#[trigger] before.soft_breaks@[l])@.len()
        == after.soft_breaks@[l]@.len() by {
        assert(after.soft_breaks@[l]@ == before.soft_breaks@[l]@);
    }
    lemma_changed_cut_same(before.soft_breaks@, after.soft_breaks@, before.line_count(), len);
    assert(before.summed_heights@.subrange(0, len) =~= before.summed_heights@);
    full_heights_are_up_to_date(
        before.summed_heights@,
        before.scale@,
        after.soft_breaks@,
        spec_between(before.block_widget_inlays@, before.line_inlays@),
    );
}

/// A reflow that follows a reflow changes nothing: two states of one text,
/// with the same widgets, tab width and wrap column, that are both wrapped
/// have the same soft breaks and the same continuation columns.
pub proof fn reflow_idempotent(a: ViewMut, b: ViewMut)
    requires
        a.wf(),
        b.wf(),
        a.wrapped(),
        b.wrapped(),
        a.text@ == b.text@,
        a.inline_widget_inlays == b.inline_widget_inlays,
        a.token_ends == b.token_ends,
        a.inline_text_inlays == b.inline_text_inlays,
        a.settings == b.settings,
        a.max_column == b.max_column,
    ensures
        a.start_column_after_wrap@ == b.start_column_after_wrap@,
        forall|l: int| 0 <= l < a.line_count() ==> (#[trigger] a.soft_breaks@[l])@ == b.soft_breaks@[l]@,
{
    assert forall|l: int| 0 <= l < a.line_count() implies (#[trigger] a.start_column_after_wrap@[l])
        == b.start_column_after_wrap@[l] by {
        assert(a.soft_breaks@[l]@ == b.soft_breaks@[l]@);
    }
    assert(a.start_column_after_wrap@ =~= b.start_column_after_wrap@);
}

/// The merge sweep leaves selections that were sorted by their start each
/// before the next: from index `cur` on, if those up to `cur` are so already.
pub proof fn sweep_orders(sels: Seq<Sel>, cur: int)
    requires
        sorted_by_start(sels),
        strictly_ordered_upto(sels, cur + 1),
        0 <= cur,
    ensures
        strictly_ordered(spec_sweep(sels, cur)),
    decreases sels.len() - cur,
{
    if cur + 1 < sels.len() {
        let a = sels[cur];
        let b = sels[cur + 1];
        lemma_merge_or_before(a, b);
        if a.spec_try_merge(b) is Some {
            let merged = a.spec_try_merge(b).unwrap();
            lemma_merge_step(sels, cur, merged);
            sweep_orders(sels.update(cur, merged).remove(cur + 1), cur);
        } else {
            sweep_orders(sels, cur + 1);
        }
    }
}

/// Ordered selections stay ordered when a caret at `pos` takes the place of
/// the first that does not end before `pos`, or goes in front of it.
proof fn lemma_insert_keeps_order(before: Seq<Sel>, pos: BiasedPos, index: int)
    requires
        strictly_ordered(before),
        0 <= index <= before.len(),
        forall|j: int| 0 <= j < index ==> (#[trigger] before[j]).spec_end().spec_lt(pos),
        index < before.len() ==> !before[index].spec_end().spec_lt(pos),
    ensures
        strictly_ordered(
            if index < before.len() && !pos.spec_lt(before[index].spec_start()) {
                before.update(index, Sel { anchor: pos, cursor: Cursor { biased_pos: pos, column: None } })
            } else {
                before.insert(index, Sel { anchor: pos, cursor: Cursor { biased_pos: pos, column: None } })
            },
        ),
{
    let caret = Sel { anchor: pos, cursor: Cursor { biased_pos: pos, column: None } };
    let replaces = index < before.len() && !pos.spec_lt(before[index].spec_start());
    let now = if replaces {
        before.update(index, caret)
    } else {
        before.insert(index, caret)
    };
    assert forall|i: int| 0 <= i < now.len() - 1 implies ends_before(#[trigger] now[i], now[i + 1]) by {
        if i + 1 < index {
            assert(ends_before(before[i], before[i + 1]));
        } else if i + 1 == index {
            assert(before[i].spec_end().spec_lt(pos));
            lemma_caret_order(before[i], caret, pos);
        } else if i == index {
            if replaces {
                assert(ends_before(before[index], before[index + 1]));
                lemma_caret_within(before[index], before[index + 1], caret, pos);
            } else {
                lemma_caret_order(before[index], caret, pos);
            }
        } else if replaces {
            assert(ends_before(before[i], before[i + 1]));
        } else {
            assert(now[i] == before[i - 1]);
            assert(now[i + 1] == before[i]);
            assert(ends_before(before[i - 1], before[i]));
        }
    }
}

/// A caret at `pos` lies behind a selection that ends before `pos` and
/// before one that starts behind `pos`.
proof fn lemma_caret_order(a: Sel, caret: Sel, pos: BiasedPos)
    requires
        caret == (Sel { anchor: pos, cursor: Cursor { biased_pos: pos, column: None } }),
    ensures
        a.spec_end().spec_lt(pos) ==> ends_before(a, caret),
        pos.spec_lt(a.spec_start()) ==> ends_before(caret, a),
{
    reveal(ends_before);
}

/// A caret at a position up to the end of `a` lies before what `a` lies
/// before.
proof fn lemma_caret_within(a: Sel, b: Sel, caret: Sel, pos: BiasedPos)
    requires
        caret == (Sel { anchor: pos, cursor: Cursor { biased_pos: pos, column: None } }),
        !a.spec_end().spec_lt(pos),
        ends_before(a, b),
    ensures
        ends_before(caret, b),
{
    reveal(ends_before);
}

/// What is left when the selections `first..next` give way to `moved`, which
/// stood at `latest` among them.
proof fn lemma_run_gives_way(before: Seq<Sel>, moved: Sel, first: int, latest: int, next: int)
    requires
        0 <= first <= latest < next <= before.len(),
    ensures
        crate::lines::spec_without(
            crate::lines::spec_without(before.update(latest, moved), latest + 1, next - latest - 1),
            first,
            latest - first,
        ) == before.subrange(0, first).push(moved) + before.subrange(next, before.len() as int),
{
    let a = crate::lines::spec_without(before.update(latest, moved), latest + 1, next - latest - 1);
    assert(a =~= before.subrange(0, latest).push(moved) + before.subrange(next, before.len() as int));
    let b = crate::lines::spec_without(a, first, latest - first);
    assert(b =~= before.subrange(0, first).push(moved) + before.subrange(next, before.len() as int));
}

/// Ordered selections stay ordered when a run of them gives way to one
/// selection that merges with neither neighbour of the run.
proof fn lemma_move_keeps_order(before: Seq<Sel>, moved: Sel, first: int, next: int)
    requires
        strictly_ordered(before),
        0 <= first < next <= before.len(),
        first == 0 || !merges(before[first - 1], moved),
        next == before.len() || !merges(moved, before[next]),
    ensures
        strictly_ordered(
            before.subrange(0, first).push(moved) + before.subrange(next, before.len() as int),
        ),
{
    let now = before.subrange(0, first).push(moved) + before.subrange(next, before.len() as int);
    assert forall|i: int| 0 <= i < now.len() - 1 implies ends_before(#[trigger] now[i], now[i + 1]) by {
        if i + 1 < first {
            assert(ends_before(before[i], before[i + 1]));
        } else if i + 1 == first {
            lemma_apart(before[first - 1], moved);
        } else if i == first {
            lemma_apart(moved, before[next]);
        } else {
            let k = i - first - 1 + next;
            assert(now[i] == before[k]);
            assert(now[i + 1] == before[k + 1]);
            assert(ends_before(before[k], before[k + 1]));
        }
    }
}

/// Of two selections that do not merge the first ends before the second
/// starts.
proof fn lemma_apart(a: Sel, b: Sel)
    ensures
        !merges(a, b) ==> ends_before(a, b),
{
    reveal(merges);
    reveal(ends_before);
}

/// Two selections merge, or the first ends before the second starts.
proof fn lemma_merge_or_before(a: Sel, b: Sel)
    ensures
        a.spec_try_merge(b) is None <==> ends_before(a, b),
{
    reveal(ends_before);
}

/// What a merged selection keeps of the order of the two it came from.
proof fn lemma_merged_order(a: Sel, b: Sel, merged: Sel, before: Sel, after: Sel)
    requires
        starts_le(a, b),
        a.spec_try_merge(b) == Some(merged),
    ensures
        starts_le(before, a) ==> starts_le(before, merged),
        ends_before(before, a) ==> ends_before(before, merged),
        starts_le(b, after) ==> starts_le(merged, after),
{
    reveal(starts_le);
    reveal(ends_before);
}

/// A merge of two neighbours leaves the selections sorted by their start,
/// and those before the merged one each before the next.
proof fn lemma_merge_step(sels: Seq<Sel>, cur: int, merged: Sel)
    requires
        sorted_by_start(sels),
        strictly_ordered_upto(sels, cur + 1),
        0 <= cur,
        cur + 1 < sels.len(),
        sels[cur].spec_try_merge(sels[cur + 1]) == Some(merged),
    ensures
        sorted_by_start(sels.update(cur, merged).remove(cur + 1)),
        strictly_ordered_upto(sels.update(cur, merged).remove(cur + 1), cur + 1),
{
    let a = sels[cur];
    let b = sels[cur + 1];
    assert(starts_le(a, b));
    let now = sels.update(cur, merged).remove(cur + 1);
    assert forall|i: int| 0 <= i < now.len() - 1 implies starts_le(#[trigger] now[i], now[i + 1]) by {
        if i < cur - 1 {
            assert(starts_le(sels[i], sels[i + 1]));
        } else if i == cur - 1 {
            assert(starts_le(sels[i], sels[i + 1]));
            lemma_merged_order(a, b, merged, sels[i], a);
        } else if i == cur {
            assert(starts_le(sels[cur + 1], sels[cur + 2]));
            lemma_merged_order(a, b, merged, a, sels[cur + 2]);
        } else {
            assert(starts_le(sels[i + 1], sels[i + 2]));
        }
    }
    assert forall|i: int| 0 <= i < cur implies ends_before(#[trigger] now[i], now[i + 1]) by {
        assert(ends_before(sels[i], sels[i + 1]));
        if i == cur - 1 {
            lemma_merged_order(a, b, merged, sels[i], a);
        }
    }
}

/// Selections of which each ends before the next starts are left as they
/// are by the merge sweep.
pub proof fn sweep_fixed_point(sels: Seq<Sel>, cur: int, latest: int)
    requires
        strictly_ordered(sels),
        0 <= cur,
    ensures
        spec_sweep(sels, cur) == sels,
        spec_sweep_latest(sels, cur, latest) == latest,
    decreases sels.len() - cur,
{
    if cur + 1 < sels.len() {
        assert(ends_before(sels[cur], sels[cur + 1]));
        lemma_merge_or_before(sels[cur], sels[cur + 1]);
        sweep_fixed_point(sels, cur + 1, latest);
    }
}

/// Gathers all that takes height between the lines.
pub fn between_lines(widgets: &Vec<BlockWidget>, inlays: &Vec<LineInlay>) -> (r: Vec<BlockWidget>)
    ensures
        r@ == spec_between(widgets@, inlays@),
{
    let mut r: Vec<BlockWidget> = Vec::new();
    let mut i: usize = 0;
    while i < widgets.len()
        invariant
            i <= widgets.len(),
            r@ =~= widgets@.subrange(0, i as int),
        decreases widgets.len() - i,
    {
        r.push(widgets[i]);
        i += 1;
    }
    let mut k: usize = 0;
    while k < inlays.len()
        invariant
            k <= inlays.len(),
            r@ =~= widgets@ + Seq::new(
                k as nat,
                |i: int| BlockWidget { line: inlays@[i].line, bias: Bias::Before, height: 1_000_000u64 },
            ),
        decreases inlays.len() - k,
    {
        r.push(BlockWidget { line: inlays[k].line, bias: Bias::Before, height: 1_000_000 });
        k += 1;
    }
    r
}

/// The sum of two heights, as far as a `u64` holds it.
pub fn add_height(a: u64, b: u64) -> (r: u64)
    ensures
        r == clip_height(a + b),
{
    if b > u64::MAX - a {
        u64::MAX
    } else {
        a + b
    }
}

/// The height of the widgets pinned on the given side of `line`, as far as a
/// `u64` holds it.
pub fn pinned_height(widgets: &Vec<BlockWidget>, line: usize, bias: Bias) -> (h: u64)
    ensures
        h == clip_height(spec_pinned(widgets@, line as int, bias)),
        0 <= spec_pinned(widgets@, line as int, bias),
{
    let mut h: u64 = 0;
    let mut i: usize = 0;
    while i < widgets.len()
        invariant
            i <= widgets.len(),
            0 <= spec_pinned_height(widgets@, line as int, bias, i as int),
            h == clip_height(spec_pinned_height(widgets@, line as int, bias, i as int)),
        decreases widgets.len() - i,
    {
        let w = widgets[i];
        if w.line == line && w.bias == bias {
            h = add_height(h, w.height);
        }
        i += 1;
    }
    h
}

/// The height of a line of `breaks` soft breaks at the given scale, as far as
/// a `u64` holds it.
pub fn line_height(scale: u32, breaks: usize) -> (h: u64)
    requires
        scale <= SCALE_ONE,
    ensures
        h == clip_height(scale * (breaks + 1)),
        0 <= scale * (breaks + 1),
{
    let rows: u128 = breaks as u128 + 1;
    proof {
        assert(scale * rows <= 1_000_000 * 0x1_0000_0000_0000_0000) by (nonlinear_arith)
            requires
                scale <= 1_000_000,
                rows <= 0x1_0000_0000_0000_0000,
        ;
    }
    let h: u128 = scale as u128 * rows;
    if h > u64::MAX as u128 {
        u64::MAX
    } else {
        h as u64
    }
}

} // verus!
