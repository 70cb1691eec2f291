//! What the summed heights are: prefix sums of the heights of the lines and
//! of the widgets between them.

use vstd::prelude::*;
use crate::pos::Bias;
use crate::view_mut::{
    clip_height, spec_heights_from, spec_heights_updated, spec_line_height, spec_pinned,
    spec_pinned_height, BlockWidget,
};

verus! {

/// The height of the first `n` lines together with the widgets pinned to
/// them.
pub open spec fn spec_total_height(
    scale: Seq<u32>,
    breaks: Seq<Vec<usize>>,
    widgets: Seq<BlockWidget>,
    n: int,
) -> int
    decreases n, 0int,
{
    if n <= 0 {
        0
    } else {
        spec_height_with(scale, breaks, widgets, n - 1) + spec_pinned(widgets, n - 1, Bias::After)
    }
}

/// The height down to the lower edge of line `i`: that of the lines above
/// with their widgets, of the widgets pinned before the line, and of the line.
pub open spec fn spec_height_with(
    scale: Seq<u32>,
    breaks: Seq<Vec<usize>>,
    widgets: Seq<BlockWidget>,
    i: int,
) -> int
    decreases i, 1int,
{
    if i < 0 {
        0
    } else {
        spec_total_height(scale, breaks, widgets, i) + spec_pinned(widgets, i, Bias::Before)
            + spec_line_height(scale[i], breaks[i]@)
    }
}

/// Each of the summed heights is the height down to the lower edge of its
/// line, as far as a `u64` holds it, and there are no more of them than
/// lines.
pub open spec fn heights_valid(
    heights: Seq<u64>,
    scale: Seq<u32>,
    breaks: Seq<Vec<usize>>,
    widgets: Seq<BlockWidget>,
) -> bool {
    &&& heights.len() <= scale.len()
    &&& forall|i: int|
        0 <= i < heights.len() ==> #[trigger] heights[i] == clip_height(
            spec_height_with(scale, breaks, widgets, i),
        )
}

proof fn lemma_pinned_height_positive(widgets: Seq<BlockWidget>, line: int, bias: Bias, n: int)
    ensures
        0 <= spec_pinned_height(widgets, line, bias, n),
    decreases n,
{
    if n > 0 {
        lemma_pinned_height_positive(widgets, line, bias, n - 1);
    }
}

proof fn lemma_total_height_positive(
    scale: Seq<u32>,
    breaks: Seq<Vec<usize>>,
    widgets: Seq<BlockWidget>,
    n: int,
)
    ensures
        0 <= spec_total_height(scale, breaks, widgets, n),
        0 <= n ==> spec_total_height(scale, breaks, widgets, n) <= spec_height_with(
            scale,
            breaks,
            widgets,
            n,
        ),
    decreases n,
{
    lemma_pinned_height_positive(widgets, n, Bias::Before, widgets.len() as int);
    if n >= 0 {
        let s = scale[n] as int;
        let rows = breaks[n]@.len() + 1;
        assert(0 <= s * rows) by (nonlinear_arith)
            requires
                0 <= s,
                0 <= rows,
        ;
    }
    if n > 0 {
        lemma_total_height_positive(scale, breaks, widgets, n - 1);
        lemma_pinned_height_positive(widgets, n - 1, Bias::After, widgets.len() as int);
    }
}

proof fn lemma_heights_from_valid(
    heights: Seq<u64>,
    scale: Seq<u32>,
    breaks: Seq<Vec<usize>>,
    widgets: Seq<BlockWidget>,
    line: int,
    sum: u64,
)
    requires
        heights_valid(heights, scale, breaks, widgets),
        heights.len() == line,
        0 <= line <= scale.len(),
        sum == clip_height(spec_total_height(scale, breaks, widgets, line)),
        forall|l: int| 0 <= l < scale.len() ==> #[trigger] scale[l] != 0,
    ensures
        heights_valid(spec_heights_from(heights, scale, breaks, widgets, line, sum), scale, breaks, widgets),
        spec_heights_from(heights, scale, breaks, widgets, line, sum).len() == scale.len(),
    decreases scale.len() - line,
{
    if line < scale.len() {
        lemma_total_height_positive(scale, breaks, widgets, line);
        lemma_pinned_height_positive(widgets, line, Bias::Before, widgets.len() as int);
        lemma_pinned_height_positive(widgets, line, Bias::After, widgets.len() as int);
        let above = clip_height(sum + spec_pinned(widgets, line, Bias::Before));
        let next = clip_height(above + spec_line_height(scale[line], breaks[line]@));
        let below = clip_height(next + spec_pinned(widgets, line, Bias::After));
        assert(next == clip_height(spec_height_with(scale, breaks, widgets, line)));
        assert(below == clip_height(spec_total_height(scale, breaks, widgets, line + 1)));
        assert(scale[line] != 0);
        let pushed = heights.push(next);
        assert forall|i: int| 0 <= i < pushed.len() implies #[trigger] pushed[i] == clip_height(
            spec_height_with(scale, breaks, widgets, i),
        ) by {
            if i < heights.len() {
                assert(pushed[i] == heights[i]);
            }
        }
        lemma_heights_from_valid(pushed, scale, breaks, widgets, line + 1, below);
    }
}

/// Summed heights that are prefix sums stay prefix sums when they are cut at
/// any length and when they are brought up to date, and then there is one for
/// each line; this as long as no line is hidden.
pub proof fn heights_stay_valid(
    heights: Seq<u64>,
    scale: Seq<u32>,
    breaks: Seq<Vec<usize>>,
    widgets: Seq<BlockWidget>,
    cut: int,
)
    requires
        heights_valid(heights, scale, breaks, widgets),
        0 <= cut <= heights.len(),
        forall|l: int| 0 <= l < scale.len() ==> #[trigger] scale[l] != 0,
    ensures
        heights_valid(heights.subrange(0, cut), scale, breaks, widgets),
        heights_valid(spec_heights_updated(heights, scale, breaks, widgets), scale, breaks, widgets),
        spec_heights_updated(heights, scale, breaks, widgets).len() == scale.len(),
{
    let kept = heights.subrange(0, cut);
    assert forall|i: int| 0 <= i < kept.len() implies #[trigger] kept[i] == clip_height(
        spec_height_with(scale, breaks, widgets, i),
    ) by {
        assert(kept[i] == heights[i]);
    }
    let len = heights.len() as int;
    if len > 0 {
        assert(heights[len - 1] == clip_height(spec_height_with(scale, breaks, widgets, len - 1)));
        lemma_total_height_positive(scale, breaks, widgets, len - 1);
        lemma_pinned_height_positive(widgets, len - 1, Bias::After, widgets.len() as int);
    }
    let sum: u64 = if len == 0 {
        0
    } else {
        clip_height(heights.last() + spec_pinned(widgets, len - 1, Bias::After))
    };
    lemma_heights_from_valid(heights, scale, breaks, widgets, len, sum);
}

} // verus!
