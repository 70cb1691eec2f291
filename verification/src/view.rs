//! The read-only projection of the document state.

use vstd::prelude::*;
use crate::sel::Sel;
use crate::text::Text;
use crate::pos::Bias;
use crate::view_mut::{BlockWidget, LineInlay, Settings, ViewMut};

verus! {

/// A borrowed, read-only view of a document state, made afresh for each
/// read.
pub struct ViewRef<'a> {
    pub doc: &'a ViewMut,
}

/// One element of the vertical layout: a line, which is hidden when it is
/// fully folded, or a widget between lines.
#[derive(Clone, Copy, Debug, PartialEq, Eq, Structural)]
pub enum Element {
    Line { hidden: bool, line: usize },
    Widget { bias: Bias, height: u64 },
    /// The inlaid line with the given index among the inlaid lines.
    Inlay { index: usize },
}

/// Those of the first `n` inlaid lines that stand in front of `line`, in
/// their order.
pub open spec fn spec_inlay_elements(inlays: Seq<LineInlay>, line: int, n: int) -> Seq<Element>
    decreases n,
{
    if n <= 0 {
        Seq::empty()
    } else {
        spec_inlay_elements(inlays, line, n - 1) + (if inlays[n - 1].line == line {
            seq![Element::Inlay { index: (n - 1) as usize }]
        } else {
            Seq::empty()
        })
    }
}

/// Appends the inlaid lines that stand in front of `line`.
pub fn push_inlays(r: &mut Vec<Element>, inlays: &Vec<LineInlay>, line: usize)
    ensures
        final(r)@ == old(r)@ + spec_inlay_elements(inlays@, line as int, inlays@.len() as int),
{
    let mut i: usize = 0;
    while i < inlays.len()
        invariant
            i <= inlays.len(),
            r@ =~= old(r)@ + spec_inlay_elements(inlays@, line as int, i as int),
        decreases inlays.len() - i,
    {
        if inlays[i].line == line {
            r.push(Element::Inlay { index: i });
        }
        i += 1;
    }
}

/// Those of the first `n` widgets that are pinned on the given side of
/// `line`, in their order.
pub open spec fn spec_pinned_elements(widgets: Seq<BlockWidget>, line: int, bias: Bias, n: int) -> Seq<Element>
    decreases n,
{
    if n <= 0 {
        Seq::empty()
    } else {
        spec_pinned_elements(widgets, line, bias, n - 1) + (if widgets[n - 1].line == line
            && widgets[n - 1].bias == bias {
            seq![Element::Widget { bias, height: widgets[n - 1].height }]
        } else {
            Seq::empty()
        })
    }
}

/// The elements of the lines `line..end`: for each line the inlaid lines in
/// front of it, the widgets pinned before it, the line, and the widgets
/// pinned after it.
pub open spec fn spec_elements(
    scale: Seq<u32>,
    widgets: Seq<BlockWidget>,
    inlays: Seq<LineInlay>,
    line: int,
    end: int,
) -> Seq<Element>
    decreases end - line,
{
    if line >= end {
        Seq::empty()
    } else {
        spec_inlay_elements(inlays, line, inlays.len() as int) + spec_pinned_elements(
            widgets,
            line,
            Bias::Before,
            widgets.len() as int,
        ) + seq![
            Element::Line { hidden: scale[line] == 0, line: line as usize },
        ] + spec_pinned_elements(widgets, line, Bias::After, widgets.len() as int) + spec_elements(
            scale,
            widgets,
            inlays,
            line + 1,
            end,
        )
    }
}

/// Appends the widgets pinned on the given side of `line`.
pub fn push_pinned(r: &mut Vec<Element>, widgets: &Vec<BlockWidget>, line: usize, bias: Bias)
    ensures
        final(r)@ == old(r)@ + spec_pinned_elements(
            widgets@,
            line as int,
            bias,
            widgets@.len() as int,
        ),
{
    let mut i: usize = 0;
    while i < widgets.len()
        invariant
            i <= widgets.len(),
            r@ =~= old(r)@ + spec_pinned_elements(widgets@, line as int, bias, i as int),
        decreases widgets.len() - i,
    {
        let w = widgets[i];
        if w.line == line && w.bias == bias {
            r.push(Element::Widget { bias, height: w.height });
        }
        i += 1;
    }
}

impl ViewMut {
    /// The read-only view of this state.
    pub fn as_view(&self) -> (v: ViewRef<'_>)
        ensures
            v.doc == self,
    {
        ViewRef { doc: self }
    }
}

impl<'a> ViewRef<'a> {
    pub fn line_count(&self) -> (n: usize)
        ensures
            n == self.doc.line_count(),
    {
        self.doc.text.line_count()
    }

    /// The bytes of line `i`.
    pub fn line(&self, i: usize) -> (line: &Vec<u8>)
        requires
            i < self.doc.line_count(),
        ensures
            line@ == self.doc.text@[i as int],
    {
        &self.doc.text.lines[i]
    }

    pub fn settings(&self) -> (s: Settings)
        ensures
            s == self.doc.settings,
    {
        self.doc.settings
    }

    pub fn text(&self) -> (t: &Text)
        ensures
            t == self.doc.text,
    {
        &self.doc.text
    }

    pub fn sels(&self) -> (s: &Vec<Sel>)
        ensures
            s == self.doc.sels,
    {
        &self.doc.sels
    }

    pub fn latest_sel_index(&self) -> (i: usize)
        ensures
            i == self.doc.latest_sel_index,
    {
        self.doc.latest_sel_index
    }

    /// The elements of the lines `start_line..end_line`, in their order.
    pub fn elements(&self, start_line: usize, end_line: usize) -> (r: Vec<Element>)
        requires
            self.doc.wf(),
            start_line <= end_line <= self.doc.line_count(),
        ensures
            r@ == spec_elements(
                self.doc.scale@,
                self.doc.block_widget_inlays@,
                self.doc.line_inlays@,
                start_line as int,
                end_line as int,
            ),
    {
        let mut r: Vec<Element> = Vec::new();
        let mut line: usize = start_line;
        while line < end_line
            invariant
                start_line <= line <= end_line <= self.doc.scale@.len(),
                r@ + spec_elements(
                    self.doc.scale@,
                    self.doc.block_widget_inlays@,
                    self.doc.line_inlays@,
                    line as int,
                    end_line as int,
                ) =~= spec_elements(
                    self.doc.scale@,
                    self.doc.block_widget_inlays@,
                    self.doc.line_inlays@,
                    start_line as int,
                    end_line as int,
                ),
            decreases end_line - line,
        {
            push_inlays(&mut r, &self.doc.line_inlays, line);
            push_pinned(&mut r, &self.doc.block_widget_inlays, line, Bias::Before);
            r.push(Element::Line { hidden: self.doc.scale[line] == 0, line });
            push_pinned(&mut r, &self.doc.block_widget_inlays, line, Bias::After);
            line += 1;
        }
        r
    }
}

} // verus!
