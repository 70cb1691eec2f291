use code_editor::pos::{Bias, BiasedPos, Length, Pos};
use code_editor::sel::{Cursor, Sel};
use code_editor::text::Text;
use code_editor::view_mut::{do_merge, Motion, Settings, ViewMut};

fn doc(s: &str) -> ViewMut {
    let lines: Vec<Vec<u8>> = s.split('\n').map(|l| l.as_bytes().to_vec()).collect();
    ViewMut::new(Settings { tab_width: 4 }, Text::from_lines(lines))
}

fn bp(line: usize, byte: usize) -> BiasedPos {
    BiasedPos { pos: Pos { line, byte }, bias: Bias::Before }
}

fn point(line: usize, byte: usize) -> Sel {
    Sel::from(Cursor::from(bp(line, byte)))
}

fn stretch(from: (usize, usize), to: (usize, usize)) -> Sel {
    Sel { anchor: bp(from.0, from.1), cursor: Cursor { biased_pos: bp(to.0, to.1), column: None } }
}

#[test]
fn selection_ends_and_length() {
    let s = stretch((2, 1), (0, 4));
    assert_eq!(s.start(), bp(0, 4));
    assert_eq!(s.end(), bp(2, 1));
    assert_eq!(s.len(), Length { lines: 2, bytes: 1 });
    assert_eq!(s.reset_anchor(), point(0, 4));
    assert_eq!(stretch((0, 1), (0, 4)).len(), Length { lines: 0, bytes: 3 });
}

#[test]
fn merge_of_a_selection_with_itself() {
    let s = stretch((0, 2), (0, 5));
    assert_eq!(s.try_merge(s), Some(s));
    let back = stretch((0, 5), (0, 2));
    assert_eq!(back.try_merge(back), Some(back));
}

#[test]
fn merge_needs_overlap_or_touch() {
    let a = stretch((0, 2), (0, 5));
    assert_eq!(a.try_merge(stretch((0, 6), (0, 8))), None);
    assert!(!do_merge(a, stretch((0, 6), (0, 8))));
    assert_eq!(a.try_merge(stretch((0, 5), (0, 8))), Some(stretch((0, 2), (0, 8))));
    assert_eq!(a.try_merge(stretch((0, 3), (0, 4))), Some(a));
    assert!(do_merge(a, stretch((0, 3), (0, 4))));
}

#[test]
fn merge_keeps_the_direction_of_the_selection_that_reaches_further() {
    let a = stretch((0, 2), (0, 5));
    let back = stretch((0, 8), (0, 4));
    assert_eq!(a.try_merge(back), Some(stretch((0, 8), (0, 2))));
    let inner_back = stretch((0, 4), (0, 3));
    assert_eq!(a.try_merge(inner_back), Some(a));
}

#[test]
fn moving_left_collapses_and_keeps_selections_apart() {
    let mut v = doc("0123456789");
    v.sels = vec![stretch((0, 2), (0, 5)), stretch((0, 5), (0, 8))];
    v.latest_sel_index = 1;
    v.move_cursors_left(false);
    let left = |byte| Sel::from(Cursor::from(bp(0, byte)));
    assert_eq!(v.sels, vec![left(4), left(7)]);
    assert_eq!(v.latest_sel_index, 1);
}

#[test]
fn moving_left_from_selection_starts_gives_the_carets_before_them() {
    let mut v = doc("0123456789");
    v.sels = vec![stretch((0, 5), (0, 3)), stretch((0, 8), (0, 6))];
    v.move_cursors_left(false);
    assert_eq!(v.sels, vec![point(0, 2), point(0, 5)]);
}

#[test]
fn moving_right_merges_selections_that_meet() {
    let mut v = doc("abcdef");
    v.sels = vec![stretch((0, 0), (0, 2)), stretch((0, 3), (0, 4))];
    v.latest_sel_index = 1;
    v.move_cursors_right(true);
    let after = |byte| BiasedPos { pos: Pos { line: 0, byte }, bias: Bias::After };
    assert_eq!(
        v.sels,
        vec![Sel { anchor: bp(0, 0), cursor: Cursor { biased_pos: after(5), column: None } }]
    );
    assert_eq!(v.latest_sel_index, 0);
}

#[test]
fn moving_right_clears_the_sticky_column() {
    let mut v = doc("ab\ncd");
    v.sels = vec![Sel { anchor: bp(0, 2), cursor: Cursor { biased_pos: bp(0, 2), column: Some(7) } }];
    v.modify_sels(false, Motion::Right);
    assert_eq!(v.sels[0].cursor.column, None);
    assert_eq!(v.sels[0].cursor.biased_pos.pos, Pos { line: 1, byte: 0 });
    assert_eq!(v.sels[0].cursor.biased_pos.bias, Bias::After);
}

#[test]
fn merge_sweep_leaves_ordered_selections_alone() {
    let mut v = doc("0123456789");
    let sels = vec![stretch((0, 0), (0, 1)), stretch((0, 3), (0, 2)), point(0, 7)];
    v.sels = sels.clone();
    v.latest_sel_index = 2;
    v.merge_sels();
    assert_eq!(v.sels, sels);
    assert_eq!(v.latest_sel_index, 2);
}

#[test]
fn merge_sweep_moves_the_latest_index_with_its_selection() {
    let mut v = doc("0123456789");
    v.sels = vec![stretch((0, 0), (0, 3)), stretch((0, 2), (0, 5)), stretch((0, 5), (0, 6)), point(0, 9)];
    v.latest_sel_index = 3;
    v.merge_sels();
    assert_eq!(v.sels, vec![stretch((0, 0), (0, 6)), point(0, 9)]);
    assert_eq!(v.latest_sel_index, 1);
    v.sels = vec![stretch((0, 0), (0, 3)), stretch((0, 2), (0, 5))];
    v.latest_sel_index = 1;
    v.merge_sels();
    assert_eq!(v.latest_sel_index, 0);
}

#[test]
fn insert_cursor_into_a_gap() {
    let mut v = doc("0123456789");
    v.sels = vec![stretch((0, 0), (0, 2)), stretch((0, 3), (0, 4)), stretch((0, 7), (0, 9))];
    v.insert_cursor(bp(0, 5));
    assert_eq!(v.sels.len(), 4);
    assert_eq!(v.latest_sel_index, 2);
    assert_eq!(v.sels[2], point(0, 5));
    assert_eq!(v.sels[3], stretch((0, 7), (0, 9)));
}

#[test]
fn insert_cursor_into_a_selection_replaces_it() {
    let mut v = doc("0123456789");
    v.sels = vec![stretch((0, 0), (0, 2)), stretch((0, 3), (0, 6))];
    v.insert_cursor(bp(0, 5));
    assert_eq!(v.sels, vec![stretch((0, 0), (0, 2)), point(0, 5)]);
    assert_eq!(v.latest_sel_index, 1);
    v.insert_cursor(bp(1, 0));
    assert_eq!(v.sels.len(), 3);
    assert_eq!(v.latest_sel_index, 2);
}

#[test]
fn set_cursor_pos_leaves_one_caret() {
    let mut v = doc("0123456789");
    v.sels = vec![stretch((0, 0), (0, 2)), stretch((0, 3), (0, 6))];
    v.latest_sel_index = 1;
    v.set_cursor_pos(bp(0, 4));
    assert_eq!(v.sels, vec![point(0, 4)]);
    assert_eq!(v.latest_sel_index, 0);
}

#[test]
fn move_cursor_to_takes_in_its_neighbours() {
    let mut v = doc("0123456789");
    v.sels = vec![point(0, 0), point(0, 2), stretch((0, 4), (0, 5)), point(0, 7), point(0, 9)];
    v.latest_sel_index = 2;
    v.move_cursor_to(true, bp(0, 8));
    assert_eq!(v.sels, vec![point(0, 0), point(0, 2), stretch((0, 4), (0, 8)), point(0, 9)]);
    assert_eq!(v.latest_sel_index, 2);
    v.move_cursor_to(true, bp(0, 1));
    assert_eq!(v.sels, vec![point(0, 0), stretch((0, 4), (0, 1)), point(0, 9)]);
    assert_eq!(v.latest_sel_index, 1);
    v.move_cursor_to(false, bp(0, 9));
    assert_eq!(v.sels, vec![point(0, 0), point(0, 9)]);
    assert_eq!(v.latest_sel_index, 1);
}

#[test]
fn insert_cursor_on_the_edge_of_a_selection_replaces_it() {
    let mut v = doc("0123456789");
    v.sels = vec![stretch((0, 0), (0, 2)), stretch((0, 3), (0, 6)), point(0, 8)];
    v.insert_cursor(bp(0, 6));
    assert_eq!(v.sels, vec![stretch((0, 0), (0, 2)), point(0, 6), point(0, 8)]);
    assert_eq!(v.latest_sel_index, 1);
    v.insert_cursor(bp(0, 0));
    assert_eq!(v.sels, vec![point(0, 0), point(0, 6), point(0, 8)]);
    assert_eq!(v.latest_sel_index, 0);
    v.insert_cursor(bp(0, 8));
    assert_eq!(v.sels, vec![point(0, 0), point(0, 6), point(0, 8)]);
    assert_eq!(v.latest_sel_index, 2);
    v.insert_cursor(bp(0, 7));
    assert_eq!(v.sels, vec![point(0, 0), point(0, 6), point(0, 7), point(0, 8)]);
    assert_eq!(v.latest_sel_index, 2);
}

#[test]
fn a_second_caret_at_the_same_place_leaves_one() {
    let mut v = doc("abc");
    v.set_cursor_pos(bp(0, 1));
    v.insert_cursor(bp(0, 1));
    assert_eq!(v.sels, vec![point(0, 1)]);
    assert_eq!(v.latest_sel_index, 0);
}

#[test]
fn a_motion_is_accepted_when_it_keeps_the_starts_in_order() {
    let mut v = doc("abcdefgh\nab\nabcdefgh");
    v.sels = vec![point(0, 1), point(0, 6), point(2, 3)];
    assert!(v.motion_keeps_order(false, Motion::Left));
    assert!(v.motion_keeps_order(true, Motion::Right));
    assert!(v.motion_keeps_order(false, Motion::Down));
    v.sels[0].cursor.column = Some(7);
    v.sels[1].cursor.column = Some(0);
    assert!(!v.motion_keeps_order(false, Motion::Down));
    assert!(v.motion_keeps_order(false, Motion::Left));
    v.sels = vec![point(1, 0)];
    assert!(v.motion_keeps_order(true, Motion::Up));
}
