use code_editor::diff::{backspace, delete, enter, move_left, move_right, replace, ApplyDiffMode, Diff, OpInfo};
use code_editor::edit::EditKind;
use code_editor::pos::{Bias, BiasedPos, Length, Pos, Range};
use code_editor::sel::{Cursor, Sel};
use code_editor::text::Text;
use code_editor::view_mut::{Settings, ViewMut, SCALE_ONE};

fn text(s: &str) -> Text {
    Text::from_lines(s.split('\n').map(|l| l.as_bytes().to_vec()).collect())
}

fn content(t: &Text) -> String {
    let lines: Vec<String> = t.lines.iter().map(|l| String::from_utf8(l.clone()).unwrap()).collect();
    lines.join("\n")
}

fn at(line: usize, byte: usize) -> BiasedPos {
    BiasedPos { pos: Pos { line, byte }, bias: Bias::Before }
}

fn caret(line: usize, byte: usize) -> Sel {
    Sel::from(Cursor::from(at(line, byte)))
}

fn span(from: (usize, usize), to: (usize, usize)) -> Sel {
    Sel { anchor: at(from.0, from.1), cursor: Cursor { biased_pos: at(to.0, to.1), column: None } }
}

fn view(s: &str) -> ViewMut {
    ViewMut::new(Settings { tab_width: 4 }, text(s))
}

fn per_line_lengths(v: &ViewMut) -> Vec<usize> {
    vec![
        v.inline_widget_inlays.len(),
        v.soft_breaks.len(),
        v.start_column_after_wrap.len(),
        v.fold_column.len(),
        v.scale.len(),
    ]
}

#[test]
fn enter_splits_the_line_at_the_caret() {
    let mut v = view("abc\ndef");
    v.set_cursor_pos(at(0, 1));
    v.enter();
    assert_eq!(content(&v.text), "a\nbc\ndef");
    assert_eq!(v.sels.len(), 1);
    assert_eq!(v.sels[0].cursor.biased_pos.pos, Pos { line: 1, byte: 0 });
    assert_eq!(v.sels[0].anchor.pos, Pos { line: 1, byte: 0 });
    assert_eq!(per_line_lengths(&v), vec![3, 3, 3, 3, 3]);
    assert_eq!(v.summed_heights, vec![1_000_000, 2_000_000, 3_000_000]);
}

#[test]
fn replace_inserts_at_every_caret() {
    let mut v = view("hello world");
    v.set_cursor_pos(at(0, 0));
    v.insert_cursor(at(0, 6));
    assert_eq!(v.sels.len(), 2);
    v.replace(text("X"));
    assert_eq!(content(&v.text), "Xhello Xworld");
    assert_eq!(v.sels[0].cursor.biased_pos.pos, Pos { line: 0, byte: 1 });
    assert_eq!(v.sels[1].cursor.biased_pos.pos, Pos { line: 0, byte: 8 });
    assert_eq!(per_line_lengths(&v), vec![1, 1, 1, 1, 1]);
}

#[test]
fn replace_puts_text_in_place_of_a_selection() {
    let mut v = view("hello world");
    v.sels = vec![span((0, 0), (0, 5))];
    v.replace(text("bye\nnow"));
    assert_eq!(content(&v.text), "bye\nnow world");
    assert_eq!(v.sels[0].cursor.biased_pos.pos, Pos { line: 1, byte: 3 });
    assert_eq!(v.sels[0].cursor.column, None);
    assert_eq!(per_line_lengths(&v), vec![2, 2, 2, 2, 2]);
}

#[test]
fn sequential_replaces_compose() {
    let mut a = view("hello world");
    a.set_cursor_pos(at(0, 5));
    a.replace(text(","));
    a.replace(text(" dear"));
    let mut b = view("hello world");
    b.set_cursor_pos(at(0, 5));
    b.replace(text(", dear"));
    assert_eq!(content(&a.text), "hello, dear world");
    assert_eq!(content(&a.text), content(&b.text));
    assert_eq!(a.sels, b.sels);
}

#[test]
fn an_edit_is_undone_by_its_inverse() {
    let mut t = text("abc\ndef\nghi");
    let e = replace(Range { start: Pos { line: 0, byte: 2 }, end: Pos { line: 1, byte: 2 } }, text("XY"));
    let inverse = e.inverse(&t);
    assert_eq!(content(&inverse.text), "c\nde");
    assert_eq!(inverse.start, Pos { line: 0, byte: 2 });
    assert_eq!(inverse.end, Pos { line: 0, byte: 4 });
    t.replace_range(e.start, e.end, &e.text);
    assert_eq!(content(&t), "abXYf\nghi");
    t.replace_range(inverse.start, inverse.end, &inverse.text);
    assert_eq!(content(&t), "abc\ndef\nghi");
    for kind in 0..3 {
        let mut t = text("ab\ncd");
        let range = Range { start: Pos { line: 0, byte: 1 }, end: Pos { line: 1, byte: 1 } };
        let caret = Range { start: Pos { line: 1, byte: 0 }, end: Pos { line: 1, byte: 0 } };
        let e = match kind {
            0 => enter(range),
            1 => delete(range),
            _ => backspace(&t, caret),
        };
        let inverse = e.inverse(&t);
        t.replace_range(e.start, e.end, &e.text);
        assert_ne!(content(&t), "ab\ncd");
        t.replace_range(inverse.start, inverse.end, &inverse.text);
        assert_eq!(content(&t), "ab\ncd");
    }
}

#[test]
fn delete_removes_a_selection_across_lines() {
    let mut v = view("abc\ndef\nghi");
    v.sels = vec![span((2, 1), (0, 2))];
    v.delete();
    assert_eq!(content(&v.text), "abhi");
    assert_eq!(v.sels[0].cursor.biased_pos.pos, Pos { line: 0, byte: 2 });
    assert_eq!(v.sels[0].anchor.pos, Pos { line: 0, byte: 2 });
    assert_eq!(per_line_lengths(&v), vec![1, 1, 1, 1, 1]);
    assert_eq!(v.summed_heights, vec![1_000_000]);
}

#[test]
fn delete_leaves_a_caret_alone() {
    let mut v = view("abc");
    v.set_cursor_pos(at(0, 1));
    v.delete();
    assert_eq!(content(&v.text), "abc");
    assert_eq!(v.sels, vec![caret(0, 1)]);
}

#[test]
fn backspace_removes_the_character_before_a_caret() {
    let mut v = view("héllo");
    v.set_cursor_pos(at(0, 3));
    v.backspace();
    assert_eq!(content(&v.text), "hllo");
    assert_eq!(v.sels[0].cursor.biased_pos.pos, Pos { line: 0, byte: 1 });
}

#[test]
fn backspace_joins_lines_at_a_line_start() {
    let mut v = view("ab\ncd");
    v.fold_column[1] = 7;
    v.set_cursor_pos(at(1, 0));
    v.backspace();
    assert_eq!(content(&v.text), "abcd");
    assert_eq!(v.sels[0].cursor.biased_pos.pos, Pos { line: 0, byte: 2 });
    assert_eq!(per_line_lengths(&v), vec![1, 1, 1, 1, 1]);
    assert_eq!(v.fold_column, vec![7]);
}

#[test]
fn backspace_at_the_start_of_the_text_changes_nothing() {
    let mut v = view("ab");
    v.backspace();
    assert_eq!(content(&v.text), "ab");
    assert_eq!(v.sels, vec![caret(0, 0)]);
}

#[test]
fn enter_gives_fresh_slots_behind_the_line() {
    let mut v = view("ab\ncd");
    v.fold_column[0] = 3;
    v.fold_column[1] = 9;
    v.scale[1] = 500_000;
    v.set_cursor_pos(at(0, 1));
    v.enter();
    assert_eq!(content(&v.text), "a\nb\ncd");
    assert_eq!(v.fold_column, vec![3, 0, 9]);
    assert_eq!((v.inline_text_inlays.len(), v.token_ends.len()), (3, 3));
    assert_eq!(v.scale, vec![SCALE_ONE, SCALE_ONE, 500_000]);
    assert_eq!(v.summed_heights, vec![1_000_000, 2_000_000, 2_500_000]);
}

#[test]
fn update_after_modify_text_follows_the_operations() {
    let mut v = view("a\nb\nc\nd");
    v.fold_column = vec![1, 2, 3, 4];
    v.text = text("a\nd\nx\ny");
    let mut diff = Diff::new();
    diff.push_op(OpInfo::Retain(Length { lines: 1, bytes: 0 }));
    diff.push_op(OpInfo::Retain(Length { lines: 0, bytes: 0 }));
    diff.push_op(OpInfo::Delete(Length { lines: 2, bytes: 0 }));
    diff.push_op(OpInfo::Insert(Length { lines: 2, bytes: 1 }));
    assert_eq!(diff.ops.len(), 3);
    v.update_after_modify_text(&diff);
    assert_eq!(v.fold_column, vec![1, 4, 0, 0]);
    assert_eq!(per_line_lengths(&v), vec![4, 4, 4, 4, 4]);
    assert_eq!(v.summed_heights.len(), 4);
}

#[test]
fn modify_text_handles_each_kind() {
    let mut v = view("abcd");
    v.sels = vec![span((0, 1), (0, 3))];
    v.modify_text(EditKind::Backspace, &Text::new());
    assert_eq!(content(&v.text), "ad");
    v.modify_text(EditKind::Replace, &text("__"));
    assert_eq!(content(&v.text), "a__d");
    v.modify_text(EditKind::Enter, &Text::new());
    assert_eq!(content(&v.text), "a__\nd");
    v.modify_text(EditKind::Delete, &Text::new());
    assert_eq!(content(&v.text), "a__\nd");
}

#[test]
fn edit_producers_cover_the_range() {
    let r = Range::new(Pos { line: 0, byte: 1 }, Pos { line: 0, byte: 2 });
    let t = text("abc");
    let e = enter(r);
    assert_eq!((e.start, e.end, e.text.lines.len()), (r.start, r.end, 2));
    let d = delete(r);
    assert_eq!((d.start, d.end, content(&d.text)), (r.start, r.end, String::new()));
    let b = backspace(&t, r);
    assert_eq!((b.start, b.end), (r.start, r.end));
    let empty = Range::new(Pos { line: 0, byte: 2 }, Pos { line: 0, byte: 2 });
    assert!(empty.is_empty());
    let b = backspace(&t, empty);
    assert_eq!((b.start, b.end), (Pos { line: 0, byte: 1 }, Pos { line: 0, byte: 2 }));
}

#[test]
fn positions_are_rebased_by_an_edit() {
    let e = replace(Range::new(Pos { line: 0, byte: 2 }, Pos { line: 0, byte: 4 }), text("x\nyz"));
    let before = ApplyDiffMode::InsertBefore;
    let after = ApplyDiffMode::InsertAfter;
    assert_eq!(e.apply_to(Pos { line: 0, byte: 1 }, before), Pos { line: 0, byte: 1 });
    assert_eq!(e.apply_to(Pos { line: 0, byte: 2 }, before), Pos { line: 1, byte: 2 });
    assert_eq!(e.apply_to(Pos { line: 0, byte: 2 }, after), Pos { line: 0, byte: 2 });
    assert_eq!(e.apply_to(Pos { line: 0, byte: 3 }, before), Pos { line: 1, byte: 2 });
    assert_eq!(e.apply_to(Pos { line: 0, byte: 6 }, before), Pos { line: 1, byte: 4 });
    assert_eq!(e.apply_to(Pos { line: 2, byte: 5 }, before), Pos { line: 3, byte: 5 });
}

#[test]
fn position_arithmetic() {
    let a = Pos { line: 1, byte: 4 };
    let b = Pos { line: 3, byte: 2 };
    assert!(a.lt(b) && a.le(b) && !b.le(a) && a.le(a) && !a.lt(a));
    assert_eq!(b.distance_from(a), Length { lines: 2, bytes: 2 });
    assert_eq!(a.distance_from(b), Length { lines: 0, bytes: 0 });
    assert_eq!(Pos { line: 1, byte: 9 }.distance_from(a), Length { lines: 0, bytes: 5 });
    assert_eq!(a.offset_by(Length { lines: 2, bytes: 2 }), b);
    assert_eq!(a.offset_by(Length { lines: 0, bytes: 3 }), Pos { line: 1, byte: 7 });
    assert_eq!(
        Pos { line: 0, byte: usize::MAX }.offset_by(Length { lines: 0, bytes: 3 }),
        Pos { line: 0, byte: usize::MAX }
    );
    assert_eq!(Pos::origin(), Pos { line: 0, byte: 0 });
    let before = BiasedPos { pos: a, bias: Bias::Before };
    let after = BiasedPos { pos: a, bias: Bias::After };
    assert!(before.lt(after) && !after.lt(before) && before.le(before) && !after.le(before));
}

#[test]
fn text_edits_move_positions_into_the_text() {
    let mut t = text("ab\ncd");
    assert_eq!(t.clamp(Pos { line: 0, byte: 9 }), Pos { line: 0, byte: 2 });
    assert_eq!(t.clamp(Pos { line: 7, byte: 0 }), Pos { line: 1, byte: 2 });
    assert_eq!(t.length(), Length { lines: 1, bytes: 2 });
    assert_eq!(t.line_count(), 2);
    assert_eq!(t.as_lines().len(), 2);
    t.replace_range(Pos { line: 1, byte: 1 }, Pos { line: 9, byte: 9 }, &text("!"));
    assert_eq!(content(&t), "ab\nc!");
    t.replace_range(Pos { line: 1, byte: 1 }, Pos { line: 0, byte: 0 }, &text("-\n-\n-"));
    assert_eq!(content(&t), "ab\nc-\n-\n-!");
    assert_eq!(content(&t.duplicate()), content(&t));
    assert_eq!(content(&Text::new()), "");
}

#[test]
fn a_slice_is_the_text_between_two_positions() {
    let t = text("abc\ndef\nghi");
    assert_eq!(content(&t.slice(Pos { line: 0, byte: 1 }, Pos { line: 0, byte: 3 })), "bc");
    assert_eq!(content(&t.slice(Pos { line: 0, byte: 1 }, Pos { line: 2, byte: 2 })), "bc\ndef\ngh");
    assert_eq!(content(&t.slice(Pos { line: 1, byte: 3 }, Pos { line: 2, byte: 0 })), "\n");
    assert_eq!(content(&t.slice(Pos { line: 2, byte: 1 }, Pos { line: 0, byte: 0 })), "");
    assert_eq!(content(&t.slice(Pos { line: 2, byte: 1 }, Pos { line: 9, byte: 9 })), "hi");
}

#[test]
fn horizontal_motion_steps_over_characters_and_lines() {
    let t = text("aé\nb");
    assert_eq!(move_left(&t, Pos { line: 0, byte: 3 }), Pos { line: 0, byte: 1 });
    assert_eq!(move_left(&t, Pos { line: 0, byte: 1 }), Pos { line: 0, byte: 0 });
    assert_eq!(move_left(&t, Pos { line: 0, byte: 0 }), Pos { line: 0, byte: 0 });
    assert_eq!(move_left(&t, Pos { line: 1, byte: 0 }), Pos { line: 0, byte: 3 });
    assert_eq!(move_right(&t, Pos { line: 0, byte: 1 }), Pos { line: 0, byte: 3 });
    assert_eq!(move_right(&t, Pos { line: 0, byte: 3 }), Pos { line: 1, byte: 0 });
    assert_eq!(move_right(&t, Pos { line: 1, byte: 1 }), Pos { line: 1, byte: 1 });
}

#[test]
fn positions_are_rebased_by_a_diff() {
    let mut v = view("abcdefgh\n\nxyz");
    v.sels = vec![Sel {
        anchor: at(0, 2),
        cursor: Cursor { biased_pos: at(0, 4), column: None },
    }];
    let diff = v.replace(text("x\nyz"));
    assert_eq!(
        diff.ops,
        vec![
            OpInfo::Retain(Length { lines: 0, bytes: 2 }),
            OpInfo::Delete(Length { lines: 0, bytes: 2 }),
            OpInfo::Insert(Length { lines: 1, bytes: 2 }),
        ]
    );
    let before = ApplyDiffMode::InsertBefore;
    let after = ApplyDiffMode::InsertAfter;
    assert_eq!(Pos { line: 0, byte: 1 }.apply_diff(&diff, before), Pos { line: 0, byte: 1 });
    assert_eq!(Pos { line: 0, byte: 2 }.apply_diff(&diff, before), Pos { line: 1, byte: 2 });
    assert_eq!(Pos { line: 0, byte: 2 }.apply_diff(&diff, after), Pos { line: 0, byte: 2 });
    assert_eq!(Pos { line: 0, byte: 3 }.apply_diff(&diff, before), Pos { line: 1, byte: 2 });
    assert_eq!(Pos { line: 0, byte: 6 }.apply_diff(&diff, before), Pos { line: 1, byte: 4 });
    assert_eq!(Pos { line: 2, byte: 3 }.apply_diff(&diff, after), Pos { line: 3, byte: 3 });
    assert_eq!(Pos { line: 2, byte: 3 }.apply_diff(&Diff::new(), after), Pos { line: 2, byte: 3 });
    let e = replace(Range::new(Pos { line: 0, byte: 2 }, Pos { line: 0, byte: 4 }), text("x\nyz"));
    for byte in 0..9 {
        let p = Pos { line: 0, byte };
        assert_eq!(p.apply_diff(&diff, before), e.apply_to(p, before));
    }
}

#[test]
fn lengths_compare_and_subtract() {
    let a = Length { lines: 2, bytes: 1 };
    let b = Length { lines: 2, bytes: 5 };
    let c = Length { lines: 0, bytes: 9 };
    assert!(a.le(b) && !b.le(a) && c.le(a) && a.le(a));
    assert_eq!(b.minus(a), Length { lines: 0, bytes: 4 });
    assert_eq!(a.minus(c), Length { lines: 2, bytes: 1 });
    assert!(Length { lines: 0, bytes: 0 }.is_zero() && !c.is_zero());
}
