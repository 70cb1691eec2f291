//! Laws of edits on a text.

use vstd::prelude::*;
use crate::edit::{spec_edit_start, spec_edit_text, spec_edited, spec_span, EditKind, EditState};
use crate::pos::{Length, Pos, Range};
use crate::sel::Sel;
use crate::text::{spec_in_text, spec_replace_range, spec_slice};

verus! {

/// Where a text `w` that is inserted at `s` ends.
pub open spec fn spec_end_of(s: Pos, w: Seq<Seq<u8>>) -> Pos {
    s.spec_offset_by(Length { lines: (w.len() - 1) as usize, bytes: w.last().len() as usize })
}

/// An edit is undone by its inverse: once `w` has replaced the span from `s`
/// to `e`, putting what stood there in place of `w` gives the text back.
pub proof fn edit_round_trip(t: Seq<Seq<u8>>, s: Pos, e: Pos, w: Seq<Seq<u8>>)
    requires
        w.len() >= 1,
        spec_in_text(t, s),
        spec_in_text(t, e),
        s.spec_le(e),
        s.line + w.len() <= usize::MAX,
        s.byte + w.last().len() <= usize::MAX,
        w.last().len() <= usize::MAX,
    ensures
        spec_in_text(spec_replace_range(t, s, e, w), s),
        spec_in_text(spec_replace_range(t, s, e, w), spec_end_of(s, w)),
        spec_replace_range(spec_replace_range(t, s, e, w), s, spec_end_of(s, w), spec_slice(t, s, e)) == t,
{
    let after = spec_replace_range(t, s, e, w);
    let end = spec_end_of(s, w);
    let old = spec_slice(t, s, e);
    let back = spec_replace_range(after, s, end, old);
    let head = t[s.line as int].subrange(0, s.byte as int);
    let tail = t[e.line as int].subrange(e.byte as int, t[e.line as int].len() as int);
    assert(after.len() == t.len() - (e.line - s.line) + w.len() - 1);
    if w.len() == 1 {
        assert(after[s.line as int] == head + w[0] + tail);
        assert(end == Pos { line: s.line, byte: (s.byte + w[0].len()) as usize });
    } else {
        assert(after[s.line as int] == head + w[0]);
        assert(after[end.line as int] == w.last() + tail);
        assert(end == Pos { line: (s.line + w.len() - 1) as usize, byte: w.last().len() as usize });
    }
    assert(after[s.line as int].subrange(0, s.byte as int) =~= head);
    assert(after[end.line as int].subrange(end.byte as int, after[end.line as int].len() as int) =~= tail);
    assert(back.len() == t.len());
    assert forall|i: int| 0 <= i < t.len() implies back[i] =~= t[i] by {
        if i < s.line {
            assert(back[i] == after[i]);
        } else if i > e.line {
            assert(back[i] == after[i - (e.line - s.line) + w.len() - 1]);
        } else if s.line == e.line {
            assert(back[i] == head + old[0] + tail);
        } else if i == s.line {
            assert(back[i] == head + old[0]);
        } else if i == e.line {
            assert(back[i] == old.last() + tail);
        } else {
            assert(back[i] == old[i - s.line]);
        }
    }
    assert(back =~= t);
}

/// The text `a` followed by the text `b`: the last line of `a` goes on with
/// the first line of `b`.
pub open spec fn spec_joined(a: Seq<Seq<u8>>, b: Seq<Seq<u8>>) -> Seq<Seq<u8>> {
    a.drop_last() + seq![a.last() + b[0]] + b.drop_first()
}

/// Two replacements in a row are one replacement by both texts: once `a` has
/// replaced the span from `s` to `e`, inserting `b` where `a` ends gives the
/// text in which `a` followed by `b` has replaced the span.
pub proof fn replace_composes(t: Seq<Seq<u8>>, s: Pos, e: Pos, a: Seq<Seq<u8>>, b: Seq<Seq<u8>>)
    requires
        a.len() >= 1,
        b.len() >= 1,
        spec_in_text(t, s),
        spec_in_text(t, e),
        s.spec_le(e),
        s.line + a.len() <= usize::MAX,
        s.byte + a.last().len() <= usize::MAX,
    ensures
        spec_replace_range(
            spec_replace_range(t, s, e, a),
            spec_end_of(s, a),
            spec_end_of(s, a),
            b,
        ) == spec_replace_range(t, s, e, spec_joined(a, b)),
{
    let first = spec_replace_range(t, s, e, a);
    let end = spec_end_of(s, a);
    let both = spec_replace_range(first, end, end, b);
    let ab = spec_joined(a, b);
    let once = spec_replace_range(t, s, e, ab);
    let head = t[s.line as int].subrange(0, s.byte as int);
    let tail = t[e.line as int].subrange(e.byte as int, t[e.line as int].len() as int);
    assert(first.len() == t.len() - (e.line - s.line) + a.len() - 1);
    if a.len() == 1 {
        assert(first[s.line as int] == head + a[0] + tail);
        assert(end == Pos { line: s.line, byte: (s.byte + a[0].len()) as usize });
    } else {
        assert(first[end.line as int] == a.last() + tail);
        assert(end == Pos { line: (s.line + a.len() - 1) as usize, byte: a.last().len() as usize });
    }
    let line = first[end.line as int];
    assert(line.subrange(0, end.byte as int) =~= (if a.len() == 1 { head + a[0] } else { a.last() }));
    assert(line.subrange(end.byte as int, line.len() as int) =~= tail);
    assert(ab.len() == a.len() + b.len() - 1);
    assert(both.len() == once.len());
    assert forall|i: int| 0 <= i < once.len() implies both[i] =~= once[i] by {
        if i < s.line {
            assert(both[i] == t[i]);
        } else if i < end.line {
            assert(both[i] == first[i]);
            assert(once[i] == (if i == s.line { head + ab[0] } else { ab[i - s.line] }));
        } else if i == end.line {
            assert(ab[a.len() - 1] == a.last() + b[0]);
        } else if i < end.line + b.len() - 1 {
            assert(both[i] == b[i - end.line]);
            assert(once[i] == ab[i - s.line]);
        } else if i == end.line + b.len() - 1 {
            assert(both[i] == b.last() + tail);
            assert(ab.last() == b.last());
        } else {
            assert(both[i] == first[i - (b.len() - 1)]);
        }
    }
    assert(both =~= once);
}

/// Where the edit at the selection `sel` ends, in the text reached in `s`.
pub open spec fn spec_step_end(s: EditState, sel: Sel) -> Pos {
    s.diffed_prev_end.spec_offset_by(spec_span(s.prev_end, sel.spec_start().pos)).spec_offset_by(
        sel.spec_end().pos.spec_distance_from(sel.spec_start().pos),
    )
}

/// Where the edit at the selection `sel` starts, in the text reached in `s`.
pub open spec fn spec_step_start(s: EditState, sel: Sel, kind: EditKind) -> Pos {
    spec_edit_start(
        kind,
        s.text,
        Range {
            start: s.diffed_prev_end.spec_offset_by(spec_span(s.prev_end, sel.spec_start().pos)),
            end: spec_step_end(s, sel),
        },
    )
}

/// Whether the edit at the selection `sel` lies within the text reached in
/// `s`, and what it inserts ends at a position that a `usize` holds.
pub open spec fn spec_step_fits(s: EditState, sel: Sel, kind: EditKind, with: Seq<Seq<u8>>) -> bool {
    let from = spec_step_start(s, sel, kind);
    let end = spec_step_end(s, sel);
    let w = spec_edit_text(kind, with);
    &&& spec_in_text(s.text, from)
    &&& spec_in_text(s.text, end)
    &&& from.spec_le(end)
    &&& from.line + w.len() <= usize::MAX
    &&& from.byte + w.last().len() <= usize::MAX
}

/// The text `cur` after the edits at the first `n` selections are undone,
/// the last one first: each puts what its edit removed in place of what it
/// inserted.
pub open spec fn spec_undone(
    cur: Seq<Seq<u8>>,
    t: Seq<Seq<u8>>,
    sels: Seq<Sel>,
    kind: EditKind,
    with: Seq<Seq<u8>>,
    n: int,
) -> Seq<Seq<u8>>
    decreases n,
{
    if n <= 0 {
        cur
    } else {
        let s = spec_edited(t, sels, kind, with, n - 1);
        let from = spec_step_start(s, sels[n - 1], kind);
        let end = spec_step_end(s, sels[n - 1]);
        let w = spec_edit_text(kind, with);
        spec_undone(
            spec_replace_range(cur, from, spec_end_of(from, w), spec_slice(s.text, from, end)),
            t,
            sels,
            kind,
            with,
            n - 1,
        )
    }
}

/// An edit at every selection is undone by the inverses of its edits, the
/// last one first: where each edit lies within the text it meets, undoing
/// them all gives the text back.
pub proof fn edits_round_trip(t: Seq<Seq<u8>>, sels: Seq<Sel>, kind: EditKind, with: Seq<Seq<u8>>, n: int)
    requires
        0 <= n <= sels.len(),
        with.len() >= 1,
        forall|k: int|
            0 <= k < n ==> spec_step_fits(
                #[trigger] spec_edited(t, sels, kind, with, k),
                sels[k],
                kind,
                with,
            ),
    ensures
        spec_undone(spec_edited(t, sels, kind, with, n).text, t, sels, kind, with, n) == t,
    decreases n,
{
    if n > 0 {
        let s = spec_edited(t, sels, kind, with, n - 1);
        assert(spec_step_fits(s, sels[n - 1], kind, with));
        let from = spec_step_start(s, sels[n - 1], kind);
        let end = spec_step_end(s, sels[n - 1]);
        let w = spec_edit_text(kind, with);
        assert(w.len() >= 1);
        assert(spec_edited(t, sels, kind, with, n).text == spec_replace_range(s.text, from, end, w));
        edit_round_trip(s.text, from, end, w);
        edits_round_trip(t, sels, kind, with, n - 1);
    }
}

} // verus!
