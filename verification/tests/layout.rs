use code_editor::lines::{fit_slots, holds, insert_slots, put_in, remove_slots, take_out};
use code_editor::pos::Bias;
use code_editor::text::Text;
use code_editor::view_mut::{line_height, step, Settings, ViewMut, SCALE_ONE};
use code_editor::wrap::{
    column_count, indentation, inline_items, inline_pins, is_space, wrap_items, wrap_line,
    InlineText, InlineWidget, Item,
};

fn open(s: &str) -> ViewMut {
    let lines: Vec<Vec<u8>> = s.split('\n').map(|l| l.as_bytes().to_vec()).collect();
    ViewMut::new(Settings { tab_width: 4 }, Text::from_lines(lines))
}

#[test]
fn columns_expand_tabs_and_count_characters() {
    let line = "a\tbé\t".as_bytes().to_vec();
    assert_eq!(column_count(&line, 0, line.len(), 4), 8);
    assert_eq!(column_count(&line, 0, 2, 4), 4);
    assert_eq!(column_count(&line, 2, 5, 4), 2);
    assert_eq!(column_count(&line, 1, 2, 8), 8);
    assert_eq!(column_count(&line, 3, 3, 4), 0);
    assert_eq!(indentation(&" \t x ".as_bytes().to_vec()), 3);
    assert_eq!(indentation(&Vec::new()), 0);
    assert!(is_space(b' ') && is_space(b'\t') && !is_space(b'x'));
}

#[test]
fn stream_splits_at_whitespace_and_widgets() {
    let line = "ab  cd".as_bytes().to_vec();
    let widgets = vec![
        InlineWidget { byte: 1, bias: Bias::Before, column_count: 3 },
        InlineWidget { byte: 9, bias: Bias::After, column_count: 2 },
    ];
    let items = inline_items(&line, &widgets, &Vec::new(), 4);
    assert_eq!(
        items,
        vec![
            Item::Fragment { bytes: 1, columns: 1 },
            Item::Widget { columns: 3 },
            Item::Fragment { bytes: 1, columns: 1 },
            Item::Fragment { bytes: 2, columns: 2 },
            Item::Fragment { bytes: 2, columns: 2 },
            Item::Widget { columns: 2 },
        ]
    );
}

#[test]
fn a_line_of_twenty_columns_wraps_at_ten() {
    let mut v = open("  abcd efgh ijkl mno");
    assert_eq!(v.text.lines[0].len(), 20);
    v.set_max_column(Some(10));
    assert_eq!(v.soft_breaks[0], vec![7, 17]);
    assert_eq!(v.start_column_after_wrap[0], 2);
    assert_eq!(v.summed_heights, vec![3_000_000]);
    assert_eq!(v.max_column, Some(10));
}

#[test]
fn reflow_twice_is_reflow_once() {
    let mut v = open("  abcd efgh ijkl mno\nshort\n\tone two three four five");
    v.set_max_column(Some(10));
    let breaks = v.soft_breaks.clone();
    let starts = v.start_column_after_wrap.clone();
    let heights = v.summed_heights.clone();
    v.wrap_lines();
    assert_eq!(v.soft_breaks, breaks);
    assert_eq!(v.start_column_after_wrap, starts);
    assert_eq!(v.summed_heights, heights);
    v.set_max_column(Some(10));
    assert_eq!(v.soft_breaks, breaks);
}

#[test]
fn no_wrap_column_means_no_breaks() {
    let mut v = open("  abcd efgh ijkl mno");
    v.set_max_column(Some(10));
    v.set_max_column(None);
    assert_eq!(v.soft_breaks[0], Vec::<usize>::new());
    assert_eq!(v.start_column_after_wrap[0], 0);
    assert_eq!(v.summed_heights, vec![1_000_000]);
}

#[test]
fn indentation_wider_than_the_wrap_column_falls_back_to_zero() {
    let line = "\t\t\tab cd".as_bytes().to_vec();
    let w = wrap_line(&line, &Vec::new(), &Vec::new(), 4, Some(8));
    assert_eq!(w.start_column_after_wrap, 0);
    assert_eq!(w.soft_breaks, vec![0]);
    let w = wrap_line(&line, &Vec::new(), &Vec::new(), 4, None);
    assert_eq!((w.soft_breaks.len(), w.start_column_after_wrap), (0, 0));
}

#[test]
fn widgets_take_columns_but_no_bytes() {
    let items = vec![
        Item::Fragment { bytes: 4, columns: 4 },
        Item::Widget { columns: 5 },
        Item::Widget { columns: 5 },
        Item::Fragment { bytes: 3, columns: 3 },
    ];
    let w = wrap_items(&items, 1, 8);
    assert_eq!(w.start_column_after_wrap, 1);
    assert_eq!(w.soft_breaks, vec![4, 4]);
    let w = wrap_items(&items, 9, 8);
    assert_eq!(w.start_column_after_wrap, 0);
}

#[test]
fn folding_runs_down_to_zero() {
    let mut v = open("a\nb\nc\nd\ne");
    v.fold_line(3, 40);
    assert_eq!(v.fold_column[3], 40);
    assert_eq!(v.folding_lines, vec![3]);
    let mut last = v.scale[3];
    for tick in 0..66 {
        assert!(v.update_fold_animations());
        assert!(v.scale[3] <= last);
        last = v.scale[3];
        assert!(v.summed_heights.len() <= 5);
        if tick == 0 {
            assert_eq!(v.scale[3], 900_000);
            assert_eq!(v.summed_heights, vec![1_000_000, 2_000_000, 3_000_000, 3_900_000, 4_900_000]);
        }
        if tick == 39 {
            assert!(v.scale[3] > 0);
            assert!(holds(&v.folding_lines, 3));
        }
    }
    assert_eq!(v.scale[3], 0);
    assert!(!holds(&v.folding_lines, 3));
    assert_eq!(v.summed_heights, vec![1_000_000, 2_000_000, 3_000_000, 4_000_000]);
    assert!(!v.update_fold_animations());
}

#[test]
fn unfolding_runs_up_to_one() {
    let mut v = open("a\nb");
    v.fold_line(1, 0);
    while v.update_fold_animations() {}
    assert_eq!(v.scale, vec![SCALE_ONE, 0]);
    v.unfold_line(1);
    assert_eq!(v.unfolding_lines, vec![1]);
    assert!(v.update_fold_animations());
    assert_eq!(v.scale[1], 100_000);
    let mut last = v.scale[1];
    let mut ticks = 1;
    while v.update_fold_animations() {
        assert!(v.scale[1] >= last);
        last = v.scale[1];
        ticks += 1;
    }
    assert_eq!(v.scale[1], SCALE_ONE);
    assert_eq!(ticks, 66);
    assert!(v.unfolding_lines.is_empty());
}

#[test]
fn a_line_is_never_folding_and_unfolding() {
    let mut v = open("a\nb\nc");
    v.fold_line(1, 2);
    v.unfold_line(1);
    assert!(v.folding_lines.is_empty());
    assert_eq!(v.unfolding_lines, vec![1]);
    v.fold_line(1, 2);
    v.fold_line(1, 3);
    assert_eq!(v.folding_lines, vec![1]);
    assert!(v.unfolding_lines.is_empty());
}

#[test]
fn scale_steps() {
    assert_eq!(step(true, SCALE_ONE), 900_000);
    assert_eq!(step(true, 1_111), 0);
    assert_eq!(step(true, 1_112), 1_000);
    assert_eq!(step(true, 0), 0);
    assert_eq!(step(false, 0), 100_000);
    assert_eq!(step(false, 998_889), SCALE_ONE);
    assert_eq!(step(false, 998_888), 999_000);
    assert_eq!(step(false, SCALE_ONE), SCALE_ONE);
}

#[test]
fn heights_are_scale_times_rows() {
    assert_eq!(line_height(SCALE_ONE, 0), 1_000_000);
    assert_eq!(line_height(500_000, 2), 1_500_000);
    assert_eq!(line_height(0, 7), 0);
    assert_eq!(line_height(SCALE_ONE, usize::MAX), u64::MAX);
    let mut v = open("a\nb\nc");
    v.scale[1] = 0;
    v.soft_breaks[2] = vec![1];
    v.summed_heights.clear();
    v.update_summed_heights();
    assert_eq!(v.summed_heights, vec![1_000_000, 3_000_000]);
}

#[test]
fn slot_helpers() {
    let mut v = vec![1usize, 2, 3, 4, 5];
    remove_slots(&mut v, 1, 2);
    assert_eq!(v, vec![1, 4, 5]);
    remove_slots(&mut v, 2, 9);
    assert_eq!(v, vec![1, 4]);
    remove_slots(&mut v, 5, 1);
    assert_eq!(v, vec![1, 4]);
    insert_slots(&mut v, 1, 2, 0);
    assert_eq!(v, vec![1, 0, 0, 4]);
    insert_slots(&mut v, 9, 1, 7);
    assert_eq!(v, vec![1, 0, 0, 4, 7]);
    fit_slots(&mut v, 2, 0);
    assert_eq!(v, vec![1, 0]);
    fit_slots(&mut v, 4, 9);
    assert_eq!(v, vec![1, 0, 9, 9]);
    let mut set = vec![3usize];
    put_in(&mut set, 5);
    put_in(&mut set, 3);
    assert_eq!(set, vec![3, 5]);
    take_out(&mut set, 3);
    take_out(&mut set, 8);
    assert_eq!(set, vec![5]);
}

#[test]
fn a_token_end_inside_a_word_cuts_the_fragment() {
    let line = "abcdefgh ij".as_bytes().to_vec();
    let whole = wrap_line(&line, &Vec::new(), &Vec::new(), 4, Some(6));
    assert_eq!(whole.soft_breaks, vec![0]);
    let cut = wrap_line(&line, &Vec::new(), &vec![4], 4, Some(6));
    assert_eq!(cut.soft_breaks, vec![4]);
    assert_eq!(
        inline_items(&line, &Vec::new(), &vec![4, 9], 4),
        vec![
            Item::Fragment { bytes: 4, columns: 4 },
            Item::Fragment { bytes: 4, columns: 4 },
            Item::Fragment { bytes: 1, columns: 1 },
            Item::Fragment { bytes: 2, columns: 2 },
        ]
    );
    let mut v = open("abcdefgh ij");
    v.token_ends[0] = vec![4];
    v.set_max_column(Some(6));
    assert_eq!(v.soft_breaks[0], vec![4]);
}

#[test]
fn an_inlaid_text_takes_columns_in_the_reflow() {
    let mut v = open("ab cd");
    v.set_max_column(Some(6));
    assert_eq!(v.soft_breaks[0], Vec::<usize>::new());
    v.inline_text_inlays[0] = vec![InlineText { byte: 2, text: b"xxxx yy".to_vec() }];
    v.wrap_lines();
    assert_eq!(v.soft_breaks[0], vec![2]);
    assert_eq!(v.summed_heights, vec![2_000_000]);
}

#[test]
fn widgets_and_inlaid_texts_merge_by_offset() {
    let widgets = vec![
        InlineWidget { byte: 1, bias: Bias::Before, column_count: 9 },
        InlineWidget { byte: 3, bias: Bias::Before, column_count: 8 },
        InlineWidget { byte: 3, bias: Bias::After, column_count: 7 },
    ];
    let inlays = vec![
        InlineText { byte: 0, text: b"a".to_vec() },
        InlineText { byte: 3, text: b"bb c".to_vec() },
    ];
    let pins = inline_pins(&widgets, &inlays, 4);
    let seen: Vec<(usize, usize)> = pins.iter().map(|p| (p.byte, p.column_count)).collect();
    assert_eq!(seen, vec![(0, 1), (1, 9), (3, 8), (3, 2), (3, 1), (3, 1), (3, 7)]);
}

#[test]
fn a_row_behind_a_break_may_pass_the_wrap_column_by_the_item_that_opened_it() {
    let line = "aaaaaa bbbbbb cccc".as_bytes().to_vec();
    let w = wrap_line(&line, &Vec::new(), &Vec::new(), 4, Some(10));
    assert_eq!(w.soft_breaks, vec![7]);
    assert_eq!(w.start_column_after_wrap, 0);
    assert_eq!(column_count(&line, 7, line.len(), 4), 11);
}
