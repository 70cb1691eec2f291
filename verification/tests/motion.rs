use code_editor::diff::OpInfo;
use code_editor::pos::{Bias, BiasedPos, Length, Pos};
use code_editor::sel::{Cursor, Sel};
use code_editor::text::Text;
use code_editor::view::Element;
use code_editor::view_mut::{
    between_lines, moved_cursor, pinned_height, BlockWidget, LineInlay, Motion, Settings, ViewMut,
};
use code_editor::wrap::byte_at_column;

fn load(s: &str) -> ViewMut {
    let lines: Vec<Vec<u8>> = s.split('\n').map(|l| l.as_bytes().to_vec()).collect();
    ViewMut::new(Settings { tab_width: 4 }, Text::from_lines(lines))
}

fn cursor_at(line: usize, byte: usize) -> Cursor {
    Cursor::from(BiasedPos { pos: Pos { line, byte }, bias: Bias::After })
}

#[test]
fn a_column_leads_to_a_byte() {
    let line = "\taé b".as_bytes().to_vec();
    assert_eq!(byte_at_column(&line, 4, 0), 0);
    assert_eq!(byte_at_column(&line, 4, 3), 0);
    assert_eq!(byte_at_column(&line, 4, 4), 1);
    assert_eq!(byte_at_column(&line, 4, 5), 2);
    assert_eq!(byte_at_column(&line, 4, 6), 4);
    assert_eq!(byte_at_column(&line, 4, 99), 6);
    assert_eq!(byte_at_column(&Vec::new(), 4, 3), 0);
}

#[test]
fn vertical_motion_keeps_the_sticky_column() {
    let v = load("abcdefgh\nab\n\tabcdefgh");
    let down = moved_cursor(&v.text, cursor_at(0, 6), Motion::Down, 4);
    assert_eq!(down.biased_pos.pos, Pos { line: 1, byte: 2 });
    assert_eq!(down.biased_pos.bias, Bias::After);
    assert_eq!(down.column, Some(6));
    let again = moved_cursor(&v.text, down, Motion::Down, 4);
    assert_eq!(again.biased_pos.pos, Pos { line: 2, byte: 3 });
    assert_eq!(again.column, Some(6));
    assert_eq!(moved_cursor(&v.text, again, Motion::Down, 4), again);
    let up = moved_cursor(&v.text, again, Motion::Up, 4);
    assert_eq!(up.biased_pos.pos, Pos { line: 1, byte: 2 });
    let top = moved_cursor(&v.text, up, Motion::Up, 4);
    assert_eq!(top.biased_pos.pos, Pos { line: 0, byte: 6 });
    assert_eq!(moved_cursor(&v.text, top, Motion::Up, 4), top);
    let left = moved_cursor(&v.text, top, Motion::Left, 4);
    assert_eq!(left.column, None);
    assert_eq!(left.biased_pos, BiasedPos { pos: Pos { line: 0, byte: 5 }, bias: Bias::Before });
}

#[test]
fn moving_all_cursors_up_merges_those_that_meet() {
    let mut v = load("abc\nabc\nabc");
    v.sels = vec![Sel::from(cursor_at(0, 1)), Sel::from(cursor_at(1, 1)), Sel::from(cursor_at(2, 2))];
    v.latest_sel_index = 2;
    v.move_cursors_up(false);
    assert_eq!(v.sels.len(), 2);
    assert_eq!(v.sels[0].cursor.biased_pos.pos, Pos { line: 0, byte: 1 });
    assert_eq!(v.sels[1].cursor.biased_pos.pos, Pos { line: 1, byte: 2 });
    assert_eq!(v.latest_sel_index, 1);
    v.sels = vec![Sel::from(cursor_at(0, 1)), Sel::from(cursor_at(1, 1))];
    v.sels[0].cursor.column = Some(1);
    v.latest_sel_index = 1;
    v.move_cursors_up(true);
    assert_eq!(v.sels.len(), 1);
    assert_eq!(v.latest_sel_index, 0);
    assert_eq!(v.sels[0].start().pos, Pos { line: 0, byte: 1 });
    assert_eq!(v.sels[0].end().pos, Pos { line: 1, byte: 1 });
}

#[test]
fn moving_all_cursors_down_extends_selections() {
    let mut v = load("abc\nabc\nabc");
    v.sels = vec![Sel::from(cursor_at(0, 1))];
    v.move_cursors_down(true);
    assert_eq!(v.sels[0].anchor.pos, Pos { line: 0, byte: 1 });
    assert_eq!(v.sels[0].cursor.biased_pos.pos, Pos { line: 1, byte: 1 });
    assert_eq!(v.sels[0].cursor.column, Some(1));
    v.move_cursors_down(false);
    assert_eq!(v.sels[0].anchor.pos, Pos { line: 2, byte: 1 });
    assert_eq!(v.sels[0].len(), Length { lines: 0, bytes: 0 });
}

#[test]
fn the_view_shows_the_state() {
    let mut v = load("ab\ncd\nef");
    v.scale[1] = 0;
    let view = v.as_view();
    assert_eq!(view.line_count(), 3);
    assert_eq!(view.line(2), &b"ef".to_vec());
    assert_eq!(view.settings(), Settings { tab_width: 4 });
    assert_eq!(view.text().lines.len(), 3);
    assert_eq!(view.sels().len(), 1);
    assert_eq!(view.latest_sel_index(), 0);
    assert_eq!(
        view.elements(0, 3),
        vec![
            Element::Line { hidden: false, line: 0 },
            Element::Line { hidden: true, line: 1 },
            Element::Line { hidden: false, line: 2 },
        ]
    );
    assert_eq!(view.elements(1, 1), vec![]);
}

#[test]
fn an_edit_hands_back_its_diff() {
    let mut v = load("hello world");
    v.sels = vec![
        Sel { anchor: cursor_at(0, 1).biased_pos, cursor: cursor_at(0, 3) },
        Sel::from(cursor_at(0, 6)),
    ];
    let diff = v.enter();
    assert_eq!(v.text.lines, vec![b"h".to_vec(), b"lo ".to_vec(), b"world".to_vec()]);
    assert_eq!(
        diff.ops,
        vec![
            OpInfo::Retain(Length { lines: 0, bytes: 1 }),
            OpInfo::Delete(Length { lines: 0, bytes: 2 }),
            OpInfo::Insert(Length { lines: 1, bytes: 0 }),
            OpInfo::Retain(Length { lines: 0, bytes: 3 }),
            OpInfo::Insert(Length { lines: 1, bytes: 0 }),
        ]
    );
    assert_eq!(v.sels[0].cursor.biased_pos.pos, Pos { line: 1, byte: 0 });
    assert_eq!(v.sels[1].cursor.biased_pos.pos, Pos { line: 2, byte: 0 });
    assert_eq!(v.scale.len(), 3);
}

#[test]
fn widgets_between_lines_add_their_height() {
    let mut v = load("a\nb");
    v.block_widget_inlays = vec![
        BlockWidget { line: 0, bias: Bias::After, height: 500_000 },
        BlockWidget { line: 1, bias: Bias::Before, height: 250_000 },
        BlockWidget { line: 1, bias: Bias::After, height: 100_000 },
        BlockWidget { line: 1, bias: Bias::Before, height: 1 },
    ];
    assert_eq!(pinned_height(&v.block_widget_inlays, 1, Bias::Before), 250_001);
    assert_eq!(pinned_height(&v.block_widget_inlays, 2, Bias::Before), 0);
    v.summed_heights.clear();
    v.update_summed_heights();
    assert_eq!(v.summed_heights, vec![1_000_000, 2_750_001]);
    v.summed_heights.truncate(1);
    v.update_summed_heights();
    assert_eq!(v.summed_heights, vec![1_000_000, 2_750_001]);
    assert_eq!(
        v.as_view().elements(0, 2),
        vec![
            Element::Line { hidden: false, line: 0 },
            Element::Widget { bias: Bias::After, height: 500_000 },
            Element::Widget { bias: Bias::Before, height: 250_000 },
            Element::Widget { bias: Bias::Before, height: 1 },
            Element::Line { hidden: false, line: 1 },
            Element::Widget { bias: Bias::After, height: 100_000 },
        ]
    );
}

#[test]
fn an_inlaid_line_takes_a_row_in_front_of_its_line() {
    let mut v = load("a\nb");
    v.line_inlays = vec![LineInlay { line: 1, text: b"note".to_vec() }];
    v.block_widget_inlays = vec![BlockWidget { line: 1, bias: Bias::Before, height: 500_000 }];
    assert_eq!(
        between_lines(&v.block_widget_inlays, &v.line_inlays),
        vec![
            BlockWidget { line: 1, bias: Bias::Before, height: 500_000 },
            BlockWidget { line: 1, bias: Bias::Before, height: 1_000_000 },
        ]
    );
    v.summed_heights.clear();
    v.update_summed_heights();
    assert_eq!(v.summed_heights, vec![1_000_000, 3_500_000]);
    assert_eq!(
        v.as_view().elements(0, 2),
        vec![
            Element::Line { hidden: false, line: 0 },
            Element::Inlay { index: 0 },
            Element::Widget { bias: Bias::Before, height: 500_000 },
            Element::Line { hidden: false, line: 1 },
        ]
    );
}
