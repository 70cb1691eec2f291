//! The text buffer: a sequence of lines, none of which holds a line break.

use vstd::prelude::*;
use crate::pos::{Length, Pos};

verus! {

/// A text of at least one line. Each line is a sequence of bytes; the line
/// breaks between them are not stored.
#[derive(Debug)]
pub struct Text {
    pub lines: Vec<Vec<u8>>,
}

/// The lines held by `v`, each as a sequence of bytes.
pub open spec fn lines_view(v: Seq<Vec<u8>>) -> Seq<Seq<u8>> {
    Seq::new(v.len(), |i: int| v[i]@)
}

/// `p`, moved back into the text `t` where it lies outside: to the end of the
/// text if its line does not exist, to the end of its line if its byte does
/// not.
pub open spec fn spec_clamp(t: Seq<Seq<u8>>, p: Pos) -> Pos {
    if p.line >= t.len() {
        Pos { line: (t.len() - 1) as usize, byte: t.last().len() as usize }
    } else if p.byte > t[p.line as int].len() {
        Pos { line: p.line, byte: t[p.line as int].len() as usize }
    } else {
        p
    }
}

/// Whether `p` is a position of the text `t`.
pub open spec fn spec_in_text(t: Seq<Seq<u8>>, p: Pos) -> bool {
    p.line < t.len() && p.byte <= t[p.line as int].len()
}

/// The lines that stand in place of the span from `s` to `e` once `w` has
/// replaced it: the first line of `w` follows what stood before `s` on its
/// line, and what stood behind `e` on its line follows the last line of `w`.
pub open spec fn spec_spliced_lines(t: Seq<Seq<u8>>, s: Pos, e: Pos, w: Seq<Seq<u8>>) -> Seq<Seq<u8>> {
    let head = t[s.line as int].subrange(0, s.byte as int);
    let tail = t[e.line as int].subrange(e.byte as int, t[e.line as int].len() as int);
    if w.len() == 1 {
        seq![head + w[0] + tail]
    } else {
        seq![head + w[0]] + w.subrange(1, w.len() - 1) + seq![w.last() + tail]
    }
}

/// The text `t` with the span from `s` to `e` replaced by `w`, for positions
/// `s <= e` of `t`.
pub open spec fn spec_replaced(t: Seq<Seq<u8>>, s: Pos, e: Pos, w: Seq<Seq<u8>>) -> Seq<Seq<u8>> {
    t.subrange(0, s.line as int) + spec_spliced_lines(t, s, e, w) + t.subrange(
        e.line + 1,
        t.len() as int,
    )
}

/// The text `t` with the span from `start` to `end` replaced by `w`, both
/// positions first moved into the text, and `end` to `start` if it lies
/// before it.
pub open spec fn spec_replace_range(t: Seq<Seq<u8>>, start: Pos, end: Pos, w: Seq<Seq<u8>>) -> Seq<Seq<u8>> {
    let s = spec_clamp(t, start);
    let e = spec_clamp(t, end);
    spec_replaced(t, s, if e.spec_lt(s) { s } else { e }, w)
}

/// The text between the positions `s <= e` of `t`.
pub open spec fn spec_slice(t: Seq<Seq<u8>>, s: Pos, e: Pos) -> Seq<Seq<u8>> {
    if s.line == e.line {
        seq![t[s.line as int].subrange(s.byte as int, e.byte as int)]
    } else {
        seq![t[s.line as int].subrange(s.byte as int, t[s.line as int].len() as int)] + t.subrange(
            s.line + 1,
            e.line as int,
        ) + seq![t[e.line as int].subrange(0, e.byte as int)]
    }
}

/// The text between `start` and `end`, both first moved into the text `t`, and
/// `end` to `start` if it lies before it.
pub open spec fn spec_slice_range(t: Seq<Seq<u8>>, start: Pos, end: Pos) -> Seq<Seq<u8>> {
    let s = spec_clamp(t, start);
    let e = spec_clamp(t, end);
    spec_slice(t, s, if e.spec_lt(s) { s } else { e })
}

/// A line pushed onto the vector is a line pushed onto its view.
pub proof fn lemma_lines_view_push(v: Seq<Vec<u8>>, x: Vec<u8>)
    ensures
        lines_view(v.push(x)) == lines_view(v).push(x@),
{
    assert(lines_view(v.push(x)) =~= lines_view(v).push(x@));
}

/// The bytes `from..to` of `src`.
pub fn copy_range(src: &Vec<u8>, from: usize, to: usize) -> (r: Vec<u8>)
    requires
        from <= to <= src.len(),
    ensures
        r@ == src@.subrange(from as int, to as int),
{
    let mut r: Vec<u8> = Vec::new();
    append_range(&mut r, src, from, to);
    proof {
        assert(r@ =~= src@.subrange(from as int, to as int));
    }
    r
}

/// Appends the bytes `from..to` of `src` to `dst`.
pub fn append_range(dst: &mut Vec<u8>, src: &Vec<u8>, from: usize, to: usize)
    requires
        from <= to <= src.len(),
    ensures
        final(dst)@ == old(dst)@ + src@.subrange(from as int, to as int),
{
    let mut i: usize = from;
    while i < to
        invariant
            from <= i <= to <= src.len(),
            dst@ =~= old(dst)@ + src@.subrange(from as int, i as int),
        decreases to - i,
    {
        dst.push(src[i]);
        i += 1;
    }
}

impl View for Text {
    type V = Seq<Seq<u8>>;

    open spec fn view(&self) -> Seq<Seq<u8>> {
        lines_view(self.lines@)
    }
}

impl Text {
    /// A text has at least one line.
    pub open spec fn wf(&self) -> bool {
        self.lines@.len() >= 1
    }

    /// The text of one empty line.
    pub fn new() -> (t: Text)
        ensures
            t.wf(),
            t@ == seq![Seq::<u8>::empty()],
    {
        let mut lines: Vec<Vec<u8>> = Vec::new();
        lines.push(Vec::new());
        let t = Text { lines };
        proof {
            assert(t@ =~= seq![Seq::<u8>::empty()]);
        }
        t
    }

    /// The text with the given lines.
    pub fn from_lines(lines: Vec<Vec<u8>>) -> (t: Text)
        requires
            lines@.len() >= 1,
        ensures
            t.wf(),
            t@ == lines_view(lines@),
    {
        Text { lines }
    }

    pub fn line_count(&self) -> (n: usize)
        ensures
            n == self@.len(),
    {
        self.lines.len()
    }

    /// The lines of the text.
    pub fn as_lines(&self) -> (lines: &Vec<Vec<u8>>)
        ensures
            lines_view(lines@) == self@,
    {
        &self.lines
    }

    /// The extent of the whole text.
    pub fn length(&self) -> (len: Length)
        requires
            self.wf(),
        ensures
            len.lines == self@.len() - 1,
            len.bytes == self@.last().len(),
    {
        let n = self.lines.len();
        Length { lines: n - 1, bytes: self.lines[n - 1].len() }
    }

    /// A copy of the text.
    pub fn duplicate(&self) -> (t: Text)
        ensures
            t@ == self@,
            t.wf() == self.wf(),
    {
        let mut lines: Vec<Vec<u8>> = Vec::new();
        let mut i: usize = 0;
        while i < self.lines.len()
            invariant
                i <= self.lines.len(),
                lines_view(lines@) =~= self@.subrange(0, i as int),
                lines@.len() == i,
            decreases self.lines.len() - i,
        {
            let line = copy_range(&self.lines[i], 0, self.lines[i].len());
            proof {
                assert(line@ =~= self.lines@[i as int]@);
            }
            lines.push(line);
            i += 1;
        }
        let t = Text { lines };
        proof {
            assert(t@ =~= self@);
        }
        t
    }

    /// Moves `p` into the text.
    pub fn clamp(&self, p: Pos) -> (q: Pos)
        requires
            self.wf(),
        ensures
            q == spec_clamp(self@, p),
            spec_in_text(self@, q),
    {
        let n = self.lines.len();
        if p.line >= n {
            Pos { line: n - 1, byte: self.lines[n - 1].len() }
        } else if p.byte > self.lines[p.line].len() {
            Pos { line: p.line, byte: self.lines[p.line].len() }
        } else {
            p
        }
    }

    /// The text between `start` and `end`.
    pub fn slice(&self, start: Pos, end: Pos) -> (r: Text)
        requires
            self.wf(),
        ensures
            r.wf(),
            r@ == spec_slice_range(self@, start, end),
    {
        let s = self.clamp(start);
        let e0 = self.clamp(end);
        let e = if e0.lt(s) { s } else { e0 };
        let ghost t = self@;
        let mut out: Vec<Vec<u8>> = Vec::new();
        if s.line == e.line {
            let only = copy_range(&self.lines[s.line], s.byte, e.byte);
            proof {
                lemma_lines_view_push(out@, only);
            }
            out.push(only);
            proof {
                assert(lines_view(out@) =~= spec_slice(t, s, e));
            }
        } else {
            let first = copy_range(&self.lines[s.line], s.byte, self.lines[s.line].len());
            let ghost head = first@;
            proof {
                lemma_lines_view_push(out@, first);
            }
            out.push(first);
            let mut i: usize = s.line + 1;
            while i < e.line
                invariant
                    s.line < i <= e.line < self.lines.len(),
                    self@ == t,
                    out@.len() == i - s.line,
                    lines_view(out@) =~= seq![head] + t.subrange(s.line + 1, i as int),
                decreases e.line - i,
            {
                let mid = copy_range(&self.lines[i], 0, self.lines[i].len());
                proof {
                    assert(mid@ =~= t[i as int]);
                    lemma_lines_view_push(out@, mid);
                }
                out.push(mid);
                i += 1;
            }
            let last = copy_range(&self.lines[e.line], 0, e.byte);
            proof {
                lemma_lines_view_push(out@, last);
            }
            out.push(last);
            proof {
                assert(lines_view(out@) =~= spec_slice(t, s, e));
            }
        }
        Text { lines: out }
    }

    /// Replaces the span from `start` to `end` by `with`.
    pub fn replace_range(&mut self, start: Pos, end: Pos, with: &Text)
        requires
            old(self).wf(),
            with.wf(),
        ensures
            final(self).wf(),
            final(self)@ == spec_replace_range(old(self)@, start, end, with@),
    {
        let s = self.clamp(start);
        let e0 = self.clamp(end);
        let e = if e0.lt(s) { s } else { e0 };
        let ghost t = self@;
        let ghost w = with@;
        let mut out: Vec<Vec<u8>> = Vec::new();
        let mut i: usize = 0;
        while i < s.line
            invariant
                i <= s.line < self.lines.len(),
                self@ == t,
                lines_view(out@) =~= t.subrange(0, i as int),
                out@.len() == i,
            decreases s.line - i,
        {
            let line = copy_range(&self.lines[i], 0, self.lines[i].len());
            proof {
                assert(line@ =~= t[i as int]);
            }
            out.push(line);
            i += 1;
        }
        let ghost before = lines_view(out@);
        let mut line = copy_range(&self.lines[s.line], 0, s.byte);
        append_range(&mut line, &with.lines[0], 0, with.lines[0].len());
        proof {
            assert(with.lines@[0]@.subrange(0, with.lines@[0]@.len() as int) =~= w[0]);
        }
        let count = with.lines.len();
        if count == 1 {
            append_range(&mut line, &self.lines[e.line], e.byte, self.lines[e.line].len());
            out.push(line);
            proof {
                assert(lines_view(out@) =~= before + spec_spliced_lines(t, s, e, w));
            }
        } else {
            let ghost first = line@;
            proof {
                lemma_lines_view_push(out@, line);
            }
            out.push(line);
            let mut j: usize = 1;
            while j < count - 1
                invariant
                    1 <= j <= count - 1,
                    count == with.lines.len(),
                    with@ == w,
                    w.len() == count,
                    out@.len() == before.len() + j,
                    lines_view(out@) =~= before + seq![first] + w.subrange(1, j as int),
                decreases count - j,
            {
                let mid = copy_range(&with.lines[j], 0, with.lines[j].len());
                proof {
                    assert(mid@ =~= w[j as int]);
                    lemma_lines_view_push(out@, mid);
                }
                out.push(mid);
                j += 1;
            }
            let mut last = copy_range(&with.lines[count - 1], 0, with.lines[count - 1].len());
            proof {
                assert(last@ =~= w.last());
            }
            append_range(&mut last, &self.lines[e.line], e.byte, self.lines[e.line].len());
            proof {
                lemma_lines_view_push(out@, last);
                assert(w.subrange(1, count - 1) == w.subrange(1, w.len() - 1));
            }
            out.push(last);
            proof {
                assert(lines_view(out@) =~= before + spec_spliced_lines(t, s, e, w));
            }
        }
        let ghost upto = lines_view(out@);
        let mut k: usize = e.line + 1;
        while k < self.lines.len()
            invariant
                e.line < k <= self.lines.len(),
                self@ == t,
                lines_view(out@) =~= upto + t.subrange(e.line + 1, k as int),
                out@.len() == upto.len() + k - e.line - 1,
                out@.len() >= 1,
            decreases self.lines.len() - k,
        {
            let line = copy_range(&self.lines[k], 0, self.lines[k].len());
            proof {
                assert(line@ =~= t[k as int]);
                lemma_lines_view_push(out@, line);
            }
            out.push(line);
            k += 1;
        }
        self.lines = out;
    }
}

} // verus!
