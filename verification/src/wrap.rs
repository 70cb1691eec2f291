//! Column arithmetic on the bytes of a line, the stream of inline items of a
//! line, and the soft-wrap of one line.

use vstd::prelude::*;
use crate::lines::holds;
use crate::pos::Bias;

verus! {

/// A widget shown inside a line, pinned at a byte offset.
#[derive(Clone, Copy, Debug, PartialEq, Eq, Structural)]
pub struct InlineWidget {
    pub byte: usize,
    pub bias: Bias,
    pub column_count: usize,
}

/// A text shown inside a line without being part of it, pinned at a byte
/// offset.
#[derive(Debug)]
pub struct InlineText {
    pub byte: usize,
    pub text: Vec<u8>,
}

/// One item of the inline stream of a line: a run of text that is all
/// whitespace or all non-whitespace, or a widget, which takes columns but no
/// bytes.
#[derive(Clone, Copy, Debug, PartialEq, Eq, Structural)]
pub enum Item {
    Fragment { bytes: usize, columns: usize },
    Widget { columns: usize },
}

/// What a reflow of one line gives.
#[derive(Debug)]
pub struct Wrapped {
    pub soft_breaks: Vec<usize>,
    pub start_column_after_wrap: usize,
}

/// The state of the second pass of a reflow.
pub struct WrapState {
    pub byte: int,
    pub column: int,
    pub breaks: Seq<usize>,
}

pub open spec fn spec_is_space(b: u8) -> bool {
    b == 0x20 || b == 0x09
}

/// Whether `b` starts a character: it is not a UTF-8 continuation byte.
pub open spec fn spec_starts_char(b: u8) -> bool {
    b < 0x80 || b >= 0xC0
}

/// The column reached from `column` by one byte: a tab goes to the next
/// multiple of `tab_width`, a byte that starts another character takes one
/// column, a continuation byte none.
pub open spec fn spec_advance(column: int, b: u8, tab_width: int) -> int {
    if b == 0x09 {
        column + tab_width - column % tab_width
    } else if spec_starts_char(b) {
        column + 1
    } else {
        column
    }
}

/// The number of columns that `s` takes when it starts at column 0.
pub open spec fn spec_column_count(s: Seq<u8>, tab_width: int) -> int
    decreases s.len(),
{
    if s.len() == 0 {
        0
    } else {
        spec_advance(spec_column_count(s.drop_last(), tab_width), s.last(), tab_width)
    }
}

/// `n` as a `usize`, or the largest `usize` where it does not fit.
pub open spec fn clip(n: int) -> usize {
    if n > usize::MAX {
        usize::MAX
    } else {
        n as usize
    }
}

/// The length of the longest prefix of `s` that is whitespace.
pub open spec fn spec_indentation(s: Seq<u8>) -> int
    decreases s.len(),
{
    if s.len() == 0 || !spec_is_space(s[0]) {
        0
    } else {
        1 + spec_indentation(s.subrange(1, s.len() as int))
    }
}

impl Item {
    pub open spec fn spec_columns(self) -> int {
        match self {
            Item::Fragment { columns, .. } => columns as int,
            Item::Widget { columns } => columns as int,
        }
    }

    /// The columns that the item takes, as it holds them.
    pub open spec fn spec_width(self) -> usize {
        match self {
            Item::Fragment { columns, .. } => columns,
            Item::Widget { columns } => columns,
        }
    }

    pub open spec fn spec_bytes(self) -> int {
        match self {
            Item::Fragment { bytes, .. } => bytes as int,
            Item::Widget { .. } => 0,
        }
    }
}

/// The bytes that the first `n` items take.
pub open spec fn bytes_before(items: Seq<Item>, n: int) -> int
    decreases n,
{
    if n <= 0 {
        0
    } else {
        bytes_before(items, n - 1) + items[n - 1].spec_bytes()
    }
}

/// The number of widgets among the first `n` items.
pub open spec fn widgets_before(items: Seq<Item>, n: int) -> int
    decreases n,
{
    if n <= 0 {
        0
    } else {
        widgets_before(items, n - 1) + (if items[n - 1] is Widget { 1int } else { 0int })
    }
}

/// The continuation column after the first `n` items: it starts at `init` and
/// falls to 0 at each item that would not fit behind it.
pub open spec fn continuation_after(items: Seq<Item>, init: int, max: int, n: int) -> int
    decreases n,
{
    if n <= 0 {
        init
    } else {
        let c = continuation_after(items, init, max, n - 1);
        if c + items[n - 1].spec_columns() > max {
            0
        } else {
            c
        }
    }
}

/// The state of the second pass after the first `n` items: an item that would
/// end behind `max` puts a break at the current byte and the column back to
/// `start`.
pub open spec fn wrap_after(items: Seq<Item>, start: int, max: int, n: int) -> WrapState
    decreases n,
{
    if n <= 0 {
        WrapState { byte: 0, column: 0, breaks: Seq::empty() }
    } else {
        let s = wrap_after(items, start, max, n - 1);
        let next = s.column + items[n - 1].spec_columns();
        WrapState {
            byte: s.byte + items[n - 1].spec_bytes(),
            column: if next > max { start } else { next },
            breaks: if next > max { s.breaks.push(clip(s.byte)) } else { s.breaks },
        }
    }
}

/// The column at which byte `b` of `line` stands, as far as a `usize` holds
/// it.
pub open spec fn spec_column_of(line: Seq<u8>, b: int, tab_width: int) -> usize {
    clip(spec_column_count(line.subrange(0, b), tab_width))
}

/// The last byte offset from `b` on, up to which `line` takes no more than
/// `column` columns.
pub open spec fn spec_byte_at_column(line: Seq<u8>, tab_width: int, column: usize, b: int) -> int
    decreases line.len() - b,
{
    if 0 <= b < line.len() && spec_column_of(line, b + 1, tab_width) <= column {
        spec_byte_at_column(line, tab_width, column, b + 1)
    } else {
        b
    }
}

/// The byte offset in `line` that column `column` leads to: the last one up
/// to which the line takes no more columns than that.
pub fn byte_at_column(line: &Vec<u8>, tab_width: usize, column: usize) -> (b: usize)
    requires
        tab_width > 0,
    ensures
        b == spec_byte_at_column(line@, tab_width as int, column, 0),
        b <= line.len(),
{
    let mut b: usize = 0;
    while b < line.len() && column_count(line, 0, b + 1, tab_width) <= column
        invariant
            b <= line.len(),
            tab_width > 0,
            spec_byte_at_column(line@, tab_width as int, column, b as int) == spec_byte_at_column(
                line@,
                tab_width as int,
                column,
                0,
            ),
        decreases line.len() - b,
    {
        b += 1;
    }
    b
}

pub fn is_space(b: u8) -> (r: bool)
    ensures
        r == spec_is_space(b),
{
    b == 0x20 || b == 0x09
}

/// The number of columns that the bytes `from..to` of `text` take when they
/// start at column 0, as far as a `usize` holds it.
pub fn column_count(text: &Vec<u8>, from: usize, to: usize, tab_width: usize) -> (columns: usize)
    requires
        from <= to <= text.len(),
        tab_width > 0,
    ensures
        columns == clip(spec_column_count(text@.subrange(from as int, to as int), tab_width as int)),
{
    let mut column: usize = 0;
    let mut i: usize = from;
    while i < to
        invariant
            from <= i <= to <= text.len(),
            tab_width > 0,
            column == clip(spec_column_count(text@.subrange(from as int, i as int), tab_width as int)),
            spec_column_count(text@.subrange(from as int, i as int), tab_width as int) >= 0,
        decreases to - i,
    {
        let b = text[i];
        proof {
            let next = text@.subrange(from as int, i + 1);
            assert(next.drop_last() == text@.subrange(from as int, i as int));
            assert(next.last() == b);
            let c = spec_column_count(text@.subrange(from as int, i as int), tab_width as int);
            assert(0 <= c % (tab_width as int) < tab_width) by (nonlinear_arith)
                requires
                    c >= 0,
                    tab_width > 0,
            ;
        }
        let step: usize = if b == 0x09 {
            tab_width - column % tab_width
        } else if b < 0x80 || b >= 0xC0 {
            1
        } else {
            0
        };
        column = if step > usize::MAX - column {
            usize::MAX
        } else {
            column + step
        };
        i += 1;
    }
    proof {
        assert(text@.subrange(from as int, from as int).len() == 0);
    }
    column
}

/// The length of the leading whitespace of `text`.
pub fn indentation(text: &Vec<u8>) -> (n: usize)
    ensures
        n == spec_indentation(text@),
        n <= text.len(),
{
    let mut i: usize = 0;
    proof {
        assert(text@.subrange(0, text.len() as int) == text@);
    }
    while i < text.len() && is_space(text[i])
        invariant
            i <= text.len(),
            spec_indentation(text@) == i + spec_indentation(text@.subrange(i as int, text.len() as int)),
        decreases text.len() - i,
    {
        proof {
            let rest = text@.subrange(i as int, text.len() as int);
            assert(rest.subrange(1, rest.len() as int) == text@.subrange(i + 1, text.len() as int));
        }
        i += 1;
    }
    proof {
        let rest = text@.subrange(i as int, text.len() as int);
        assert(i < text.len() ==> rest[0] == text@[i as int]);
    }
    i
}

/// Whether item `k` of `items` is what the line holds at its place: a fragment
/// is a run of bytes of one kind with its column count, a widget the next of
/// `widgets`.
pub open spec fn item_matches(
    items: Seq<Item>,
    k: int,
    text: Seq<u8>,
    widgets: Seq<InlineWidget>,
    tab_width: int,
) -> bool {
    match items[k] {
        Item::Fragment { bytes, columns } => {
            let from = bytes_before(items, k);
            &&& bytes > 0
            &&& 0 <= from
            &&& from + bytes <= text.len()
            &&& columns == clip(spec_column_count(text.subrange(from, from + bytes), tab_width))
            &&& forall|j: int|
                from <= j < from + bytes ==> spec_is_space(#[trigger] text[j]) == spec_is_space(
                    text[from],
                )
        },
        Item::Widget { columns } => {
            let w = widgets_before(items, k);
            0 <= w < widgets.len() && columns == widgets[w].column_count
        },
    }
}

/// Where the fragment that starts at byte `b` ends, given that it reaches
/// `e`: at the end of the text, where whitespace meets non-whitespace, where
/// widget `w`, the next one, is pinned, or where a token ends (`ends`).
pub open spec fn spec_fragment_end(
    text: Seq<u8>,
    widgets: Seq<InlineWidget>,
    ends: Seq<usize>,
    w: int,
    b: int,
    e: int,
) -> int
    decreases text.len() - e,
{
    if 0 <= b < e < text.len() && spec_is_space(text[e]) == spec_is_space(text[b]) && !(0 <= w
        < widgets.len() && widgets[w].byte <= e) && !ends.contains(e as usize) {
        spec_fragment_end(text, widgets, ends, w, b, e + 1)
    } else {
        e
    }
}

/// The inline stream of a line from byte `b` and widget `w` on: a widget
/// pinned at or before `b`, or any widget once the text is used up, comes
/// next; else the fragment that starts at `b`.
pub open spec fn spec_stream(
    text: Seq<u8>,
    widgets: Seq<InlineWidget>,
    ends: Seq<usize>,
    tab_width: int,
    b: int,
    w: int,
) -> Seq<Item>
    decreases text.len() - b + widgets.len() - w, 0int,
{
    if b < 0 || w < 0 || b > text.len() || w > widgets.len() {
        Seq::empty()
    } else if w < widgets.len() && (widgets[w].byte <= b || b == text.len()) {
        seq![Item::Widget { columns: widgets[w].column_count }] + spec_stream(
            text,
            widgets,
            ends,
            tab_width,
            b,
            w + 1,
        )
    } else if b < text.len() {
        let e = spec_fragment_end(text, widgets, ends, w, b, b + 1);
        if b < e <= text.len() {
            seq![
                Item::Fragment {
                    bytes: (e - b) as usize,
                    columns: clip(spec_column_count(text.subrange(b, e), tab_width)),
                },
            ] + spec_stream(text, widgets, ends, tab_width, e, w)
        } else {
            Seq::empty()
        }
    } else {
        Seq::empty()
    }
}

/// The continuation column of a line under `max_column`: 0 where nothing is
/// wrapped; else what is left of the width of the indentation after the
/// first pass over the stream.
pub open spec fn spec_line_start(
    text: Seq<u8>,
    widgets: Seq<InlineWidget>,
    ends: Seq<usize>,
    tab_width: int,
    max_column: Option<usize>,
) -> int {
    match max_column {
        None => 0,
        Some(max) => {
            let items = spec_stream(text, widgets, ends, tab_width, 0, 0);
            let indent = clip(
                spec_column_count(text.subrange(0, spec_indentation(text)), tab_width),
            );
            continuation_after(items, indent as int, max as int, items.len() as int)
        },
    }
}

/// The soft breaks of a line under `max_column`: none where nothing is
/// wrapped; else those of the second pass over the stream.
pub open spec fn spec_line_breaks(
    text: Seq<u8>,
    widgets: Seq<InlineWidget>,
    ends: Seq<usize>,
    tab_width: int,
    max_column: Option<usize>,
) -> Seq<usize> {
    match max_column {
        None => Seq::empty(),
        Some(max) => {
            let items = spec_stream(text, widgets, ends, tab_width, 0, 0);
            wrap_after(
                items,
                spec_line_start(text, widgets, ends, tab_width, max_column),
                max as int,
                items.len() as int,
            ).breaks
        },
    }
}

/// The inline stream of a line: its text cut wherever whitespace meets
/// non-whitespace and wherever a widget is pinned, with each widget at its
/// offset. `widgets` is ordered by offset; a widget pinned behind the end of
/// the text comes last.
pub fn inline_items(text: &Vec<u8>, widgets: &Vec<InlineWidget>, ends: &Vec<usize>, tab_width: usize) -> (items: Vec<Item>)
    requires
        tab_width > 0,
    ensures
        items@ == spec_stream(text@, widgets@, ends@, tab_width as int, 0, 0),
        bytes_before(items@, items@.len() as int) == text.len(),
        widgets_before(items@, items@.len() as int) == widgets.len(),
        forall|k: int|
            0 <= k < items@.len() ==> #[trigger] item_matches(items@, k, text@, widgets@, tab_width as int),
{
    let mut items: Vec<Item> = Vec::new();
    let mut b: usize = 0;
    let mut w: usize = 0;
    loop
        invariant
            tab_width > 0,
            b <= text.len(),
            w <= widgets.len(),
            bytes_before(items@, items@.len() as int) == b,
            widgets_before(items@, items@.len() as int) == w,
            items@ + spec_stream(text@, widgets@, ends@, tab_width as int, b as int, w as int)
                == spec_stream(text@, widgets@, ends@, tab_width as int, 0, 0),
            forall|k: int|
                0 <= k < items@.len() ==> #[trigger] item_matches(
                    items@,
                    k,
                    text@,
                    widgets@,
                    tab_width as int,
                ),
        ensures
            b == text.len(),
            w == widgets.len(),
            items@ + spec_stream(text@, widgets@, ends@, tab_width as int, b as int, w as int)
                == spec_stream(text@, widgets@, ends@, tab_width as int, 0, 0),
        decreases text.len() - b + widgets.len() - w,
    {
        if w < widgets.len() && (widgets[w].byte <= b || b == text.len()) {
            let ghost prev = items@;
            items.push(Item::Widget { columns: widgets[w].column_count });
            proof {
                let rest = spec_stream(text@, widgets@, ends@, tab_width as int, b as int, w + 1);
                assert(items@ + rest =~= prev + (seq![items@[prev.len() as int]] + rest));
                let item = items@[prev.len() as int];
                assert(items@ == prev.push(item));
                lemma_prefix_sums_push(prev, item);
                assert(bytes_before(items@, prev.len() as int) == b);
                assert(widgets_before(items@, prev.len() as int) == w);
                lemma_items_push(prev, item, text@, widgets@, tab_width as int);
            }
            w += 1;
        } else if b < text.len() {
            let space = is_space(text[b]);
            let mut e: usize = b + 1;
            while e < text.len() && is_space(text[e]) == space && !(w < widgets.len()
                && widgets[w].byte <= e) && !holds(ends, e)
                invariant
                    b < e <= text.len(),
                    w <= widgets.len(),
                    spec_fragment_end(text@, widgets@, ends@, w as int, b as int, e as int)
                        == spec_fragment_end(text@, widgets@, ends@, w as int, b as int, b + 1),
                    space == spec_is_space(text@[b as int]),
                    forall|j: int| b <= j < e ==> spec_is_space(#[trigger] text@[j]) == space,
                decreases text.len() - e,
            {
                e += 1;
            }
            let columns = column_count(text, b, e, tab_width);
            let ghost prev = items@;
            items.push(Item::Fragment { bytes: e - b, columns });
            proof {
                let rest = spec_stream(text@, widgets@, ends@, tab_width as int, e as int, w as int);
                assert(items@ + rest =~= prev + (seq![items@[prev.len() as int]] + rest));
                let item = items@[prev.len() as int];
                assert(items@ == prev.push(item));
                lemma_prefix_sums_push(prev, item);
                assert(bytes_before(items@, prev.len() as int) == b);
                assert(widgets_before(items@, prev.len() as int) == w);
                lemma_items_push(prev, item, text@, widgets@, tab_width as int);
            }
            b = e;
        } else {
            break;
        }
    }
    proof {
        assert(items@ + Seq::<Item>::empty() =~= items@);
    }
    items
}

/// Pushing an item that matches keeps the earlier items matching.
proof fn lemma_items_push(
    items: Seq<Item>,
    item: Item,
    text: Seq<u8>,
    widgets: Seq<InlineWidget>,
    tab_width: int,
)
    requires
        forall|k: int| 0 <= k < items.len() ==> #[trigger] item_matches(items, k, text, widgets, tab_width),
        item_matches(items.push(item), items.len() as int, text, widgets, tab_width),
    ensures
        forall|k: int|
            0 <= k <= items.len() ==> #[trigger] item_matches(
                items.push(item),
                k,
                text,
                widgets,
                tab_width,
            ),
        bytes_before(items.push(item), items.len() as int + 1) == bytes_before(items, items.len() as int)
            + item.spec_bytes(),
        widgets_before(items.push(item), items.len() as int + 1) == widgets_before(
            items,
            items.len() as int,
        ) + (if item is Widget { 1int } else { 0int }),
{
    lemma_prefix_sums_push(items, item);
    let pushed = items.push(item);
    assert forall|k: int| 0 <= k <= items.len() implies #[trigger] item_matches(
        pushed,
        k,
        text,
        widgets,
        tab_width,
    ) by {
        if k < items.len() {
            assert(item_matches(items, k, text, widgets, tab_width));
            assert(pushed[k] == items[k]);
            lemma_prefix_sums_agree(items, pushed, k);
        }
    }
}

/// Pushing an item leaves the sums over earlier prefixes as they were.
proof fn lemma_prefix_sums_push(items: Seq<Item>, item: Item)
    ensures
        forall|n: int|
            0 <= n <= items.len() ==> #[trigger] bytes_before(items.push(item), n) == bytes_before(
                items,
                n,
            ),
        forall|n: int|
            0 <= n <= items.len() ==> #[trigger] widgets_before(items.push(item), n)
                == widgets_before(items, n),
        bytes_before(items.push(item), items.len() as int + 1) == bytes_before(items, items.len() as int)
            + item.spec_bytes(),
        widgets_before(items.push(item), items.len() as int + 1) == widgets_before(
            items,
            items.len() as int,
        ) + (if item is Widget { 1int } else { 0int }),
{
    let pushed = items.push(item);
    let len = items.len() as int;
    assert(pushed[len] == item);
    assert(bytes_before(pushed, len + 1) == bytes_before(pushed, len) + pushed[len].spec_bytes());
    assert(widgets_before(pushed, len + 1) == widgets_before(pushed, len) + (if pushed[len] is Widget {
        1int
    } else {
        0int
    }));
    lemma_prefix_sums_agree(items, pushed, len);
    assert forall|n: int| 0 <= n <= items.len() implies #[trigger] bytes_before(pushed, n)
        == bytes_before(items, n) by {
        lemma_prefix_sums_agree(items, pushed, n);
    }
    assert forall|n: int| 0 <= n <= items.len() implies #[trigger] widgets_before(pushed, n)
        == widgets_before(items, n) by {
        lemma_prefix_sums_agree(items, pushed, n);
    }
}

proof fn lemma_prefix_sums_agree(a: Seq<Item>, b: Seq<Item>, n: int)
    requires
        0 <= n <= a.len() <= b.len(),
        forall|k: int| 0 <= k < a.len() ==> a[k] == b[k],
    ensures
        bytes_before(a, n) == bytes_before(b, n),
        widgets_before(a, n) == widgets_before(b, n),
    decreases n,
{
    if n > 0 {
        lemma_prefix_sums_agree(a, b, n - 1);
    }
}

/// The bytes taken grow with the prefix.
pub proof fn lemma_bytes_before_monotonic(items: Seq<Item>, m: int, n: int)
    requires
        0 <= m <= n <= items.len(),
    ensures
        0 <= bytes_before(items, m) <= bytes_before(items, n),
    decreases n,
{
    if m < n {
        lemma_bytes_before_monotonic(items, m, n - 1);
    } else if n > 0 {
        lemma_bytes_before_monotonic(items, m - 1, n - 1);
    }
}

/// Reflows one line: the continuation column, which starts at `indent` and
/// falls to 0 at each item that does not fit behind it, and then the soft
/// breaks, one before each item that would end behind `max_column`.
pub fn wrap_items(items: &Vec<Item>, indent: usize, max_column: usize) -> (r: Wrapped)
    requires
        bytes_before(items@, items@.len() as int) <= usize::MAX,
    ensures
        r.start_column_after_wrap == continuation_after(
            items@,
            indent as int,
            max_column as int,
            items@.len() as int,
        ),
        r.soft_breaks@ == wrap_after(
            items@,
            r.start_column_after_wrap as int,
            max_column as int,
            items@.len() as int,
        ).breaks,
{
    let mut start: usize = indent;
    let mut i: usize = 0;
    while i < items.len()
        invariant
            i <= items.len(),
            start == continuation_after(items@, indent as int, max_column as int, i as int),
        decreases items.len() - i,
    {
        let width: usize = match items[i] {
            Item::Fragment { columns, .. } => columns,
            Item::Widget { columns } => columns,
        };
        if width > max_column || start > max_column - width {
            start = 0;
        }
        i += 1;
    }
    let mut soft_breaks: Vec<usize> = Vec::new();
    let mut byte: usize = 0;
    let mut column: usize = 0;
    let mut i: usize = 0;
    while i < items.len()
        invariant
            i <= items.len(),
            bytes_before(items@, items@.len() as int) <= usize::MAX,
            wrap_after(items@, start as int, max_column as int, i as int) == (WrapState {
                byte: byte as int,
                column: column as int,
                breaks: soft_breaks@,
            }),
            byte == bytes_before(items@, i as int),
        decreases items.len() - i,
    {
        let (size, width): (usize, usize) = match items[i] {
            Item::Fragment { bytes, columns } => (bytes, columns),
            Item::Widget { columns } => (0, columns),
        };
        proof {
            lemma_bytes_before_monotonic(items@, i + 1, items@.len() as int);
        }
        if width > max_column || column > max_column - width {
            soft_breaks.push(byte);
            column = start;
        } else {
            column = column + width;
        }
        byte = byte + size;
        i += 1;
    }
    Wrapped { soft_breaks, start_column_after_wrap: start }
}

/// The column that a reflow tracks stays within `max_column`: once the
/// stream has an item, the continuation column is at most `max_column`, and
/// so is the tracked column after each item. After a break the tracked column
/// restarts at the continuation column without the width of the item that
/// was moved to the new row, so it is the width of the first row only; what
/// holds of the later rows is stated by `rows_are_bounded`.
pub proof fn wrapped_rows_fit(items: Seq<Item>, indent: int, max: int, n: int)
    requires
        0 <= n <= items.len(),
        0 <= max,
        0 < items.len() || indent <= max,
        forall|k: int| 0 <= k < items.len() ==> (#[trigger] items[k]).spec_columns() >= 0,
    ensures
        continuation_after(items, indent, max, items.len() as int) <= max,
        wrap_after(
            items,
            continuation_after(items, indent, max, items.len() as int),
            max,
            n,
        ).column <= max,
    decreases n,
{
    lemma_continuation_fits(items, indent, max, items.len() as int);
    if n > 0 {
        wrapped_rows_fit(items, indent, max, n - 1);
    }
}

proof fn lemma_continuation_fits(items: Seq<Item>, indent: int, max: int, n: int)
    requires
        0 <= n <= items.len(),
        0 <= max,
        forall|k: int| 0 <= k < items.len() ==> (#[trigger] items[k]).spec_columns() >= 0,
    ensures
        n > 0 || indent <= max ==> continuation_after(items, indent, max, n) <= max,
    decreases n,
{
    if n > 0 {
        lemma_continuation_fits(items, indent, max, n - 1);
    }
}

/// The width of the row that holds item `n - 1`, up to and with that item: an
/// item that opens a new row stands at the continuation column `start`.
pub open spec fn row_width_after(items: Seq<Item>, start: int, max: int, n: int) -> int
    decreases n,
{
    if n <= 0 {
        0
    } else {
        let s = wrap_after(items, start, max, n - 1);
        if s.column + items[n - 1].spec_columns() > max {
            start + items[n - 1].spec_columns()
        } else {
            row_width_after(items, start, max, n - 1) + items[n - 1].spec_columns()
        }
    }
}

/// How wide a row can get. Before the first break the row is as wide as the
/// tracked column, so at most `max`. A later row is wider than the tracked
/// column by the item that opened it: where no item is wider than `bound`, no
/// row is wider than `max + bound`.
pub proof fn rows_are_bounded(items: Seq<Item>, start: int, max: int, bound: int, n: int)
    requires
        0 <= n <= items.len(),
        0 <= start <= max,
        0 <= bound,
        forall|k: int| 0 <= k < items.len() ==> 0 <= (#[trigger] items[k]).spec_columns() <= bound,
    ensures
        wrap_after(items, start, max, n).column <= max,
        wrap_after(items, start, max, n).breaks.len() == 0 ==> row_width_after(items, start, max, n)
            == wrap_after(items, start, max, n).column,
        row_width_after(items, start, max, n) <= wrap_after(items, start, max, n).column + bound,
        row_width_after(items, start, max, n) <= max + bound,
    decreases n,
{
    if n > 0 {
        rows_are_bounded(items, start, max, bound, n - 1);
        assert(0 <= items[n - 1].spec_columns() <= bound);
    }
}

/// The soft breaks of a reflow ascend and lie within the line.
pub proof fn wrapped_breaks_ascend(items: Seq<Item>, start: int, max: int, n: int)
    requires
        0 <= n <= items.len(),
        bytes_before(items, items.len() as int) <= usize::MAX,
    ensures
        wrap_after(items, start, max, n).byte == bytes_before(items, n),
        forall|k: int|
            0 <= k < wrap_after(items, start, max, n).breaks.len() ==> #[trigger] wrap_after(
                items,
                start,
                max,
                n,
            ).breaks[k] <= bytes_before(items, n),
        forall|j: int, k: int|
            0 <= j <= k < wrap_after(items, start, max, n).breaks.len() ==> wrap_after(
                items,
                start,
                max,
                n,
            ).breaks[j] <= wrap_after(items, start, max, n).breaks[k],
    decreases n,
{
    if n > 0 {
        wrapped_breaks_ascend(items, start, max, n - 1);
        lemma_bytes_before_monotonic(items, n - 1, n);
        lemma_bytes_before_monotonic(items, n, items.len() as int);
    }
}

} // verus!

verus! {

/// Reflows one line under `max_column`.
pub fn wrap_line(
    text: &Vec<u8>,
    widgets: &Vec<InlineWidget>,
    ends: &Vec<usize>,
    tab_width: usize,
    max_column: Option<usize>,
) -> (r: Wrapped)
    requires
        tab_width > 0,
    ensures
        r.soft_breaks@ == spec_line_breaks(text@, widgets@, ends@, tab_width as int, max_column),
        r.start_column_after_wrap == spec_line_start(text@, widgets@, ends@, tab_width as int, max_column),
{
    match max_column {
        None => Wrapped { soft_breaks: Vec::new(), start_column_after_wrap: 0 },
        Some(max) => {
            let items = inline_items(text, widgets, ends, tab_width);
            let indent = column_count(text, 0, indentation(text), tab_width);
            wrap_items(&items, indent, max)
        },
    }
}

/// What the first `n` fragments of an inlaid text take in the stream of the
/// line: each is pinned at the byte of the inlay and takes its columns but no
/// bytes of the line.
pub open spec fn spec_inlay_pins(byte: usize, items: Seq<Item>, n: int) -> Seq<InlineWidget>
    decreases n,
{
    if n <= 0 {
        Seq::empty()
    } else {
        spec_inlay_pins(byte, items, n - 1).push(
            InlineWidget { byte, bias: Bias::After, column_count: items[n - 1].spec_width() },
        )
    }
}

/// All that is pinned inside a line, from widget `w` and inlaid text `t` on,
/// by byte offset: at one offset a widget pinned before it comes first, then
/// the inlaid texts, each cut where whitespace meets non-whitespace, then
/// the other widgets.
pub open spec fn spec_pins(widgets: Seq<InlineWidget>, inlays: Seq<InlineText>, tab_width: int, w: int, t: int) -> Seq<InlineWidget>
    decreases widgets.len() - w + inlays.len() - t,
{
    if w < 0 || t < 0 || w > widgets.len() || t > inlays.len() {
        Seq::empty()
    } else if w < widgets.len() && (t == inlays.len() || widgets[w].byte < inlays[t].byte || (
    widgets[w].byte == inlays[t].byte && widgets[w].bias == Bias::Before)) {
        seq![widgets[w]] + spec_pins(widgets, inlays, tab_width, w + 1, t)
    } else if t < inlays.len() {
        let items = spec_stream(inlays[t].text@, Seq::empty(), Seq::empty(), tab_width, 0, 0);
        spec_inlay_pins(inlays[t].byte, items, items.len() as int) + spec_pins(
            widgets,
            inlays,
            tab_width,
            w,
            t + 1,
        )
    } else {
        Seq::empty()
    }
}

/// Merges the widgets and the inlaid texts of a line into what is pinned
/// inside it.
pub fn inline_pins(widgets: &Vec<InlineWidget>, inlays: &Vec<InlineText>, tab_width: usize) -> (pins: Vec<InlineWidget>)
    requires
        tab_width > 0,
    ensures
        pins@ == spec_pins(widgets@, inlays@, tab_width as int, 0, 0),
{
    let mut pins: Vec<InlineWidget> = Vec::new();
    let none: Vec<InlineWidget> = Vec::new();
    let no_ends: Vec<usize> = Vec::new();
    let mut w: usize = 0;
    let mut t: usize = 0;
    while w < widgets.len() || t < inlays.len()
        invariant
            w <= widgets.len(),
            t <= inlays.len(),
            tab_width > 0,
            none@ == Seq::<InlineWidget>::empty(),
            no_ends@ == Seq::<usize>::empty(),
            pins@ + spec_pins(widgets@, inlays@, tab_width as int, w as int, t as int) =~= spec_pins(
                widgets@,
                inlays@,
                tab_width as int,
                0,
                0,
            ),
        decreases widgets.len() - w + inlays.len() - t,
    {
        let take_widget = w < widgets.len() && (t == inlays.len() || widgets[w].byte < inlays[t].byte
            || (widgets[w].byte == inlays[t].byte && widgets[w].bias == Bias::Before));
        if take_widget {
            pins.push(widgets[w]);
            w += 1;
        } else {
            let byte = inlays[t].byte;
            let items = inline_items(&inlays[t].text, &none, &no_ends, tab_width);
            let ghost base = pins@;
            let mut k: usize = 0;
            while k < items.len()
                invariant
                    k <= items.len(),
                    pins@ =~= base + spec_inlay_pins(byte, items@, k as int),
                decreases items.len() - k,
            {
                let columns = match items[k] {
                    Item::Fragment { columns, .. } => columns,
                    Item::Widget { columns } => columns,
                };
                pins.push(InlineWidget { byte, bias: Bias::After, column_count: columns });
                k += 1;
            }
            t += 1;
        }
    }
    pins
}

} // verus!
