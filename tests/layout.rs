use tui_textarea::textarea::{click_column, cursor_cell, line_number_text, num_digits};
use tui_textarea::viewport::next_scroll_top;
use tui_textarea::width::{calculate_horizontal_range, char_visual_width, visual_width};
use tui_textarea::wrap::{wrap_line, wrap_segments};
use tui_textarea::{DisplayLine, Key, Rect, TextArea, Viewport};

fn area(lines: &[&str]) -> TextArea {
    TextArea::new(lines.iter().map(|s| s.to_string()).collect())
}

#[test]
fn wrap_breaks_long_word_at_width() {
    let segs = wrap_line("abcdefghij", 4);
    assert_eq!(segs, vec!["abcd".to_string(), "efgh".to_string(), "ij".to_string()]);
    assert_eq!(wrap_segments("abcdefghij", 4), vec![(0, 4), (4, 8), (8, 10)]);
}

#[test]
fn wrapped_click_on_second_segment() {
    let mut ta = area(&["abcdefghij"]);
    ta.set_wrap(true);
    ta.set_wrap_width(Some(4));
    assert_eq!(ta.screen_to_logical_position(0, 1, 20, 10), Some((0, 4)));
    let segs = wrap_line("abcdefghij", 4);
    assert_eq!(click_column(&segs, 1, 0, 0), 4);
}

#[test]
fn unwrapped_click_with_gutter() {
    let mut ta = area(&["hello"]);
    ta.set_line_numbers(true);
    assert_eq!(ta.calculate_line_number_width(), 3);
    assert_eq!(ta.screen_to_logical_position(3, 0, 80, 24), Some((0, 0)));
    assert_eq!(ta.screen_to_logical_position(0, 0, 80, 24), Some((0, 0)));
    assert_eq!(ta.screen_to_logical_position(5, 0, 80, 24), Some((0, 2)));
    assert_eq!(ta.screen_to_logical_position(70, 0, 80, 24), Some((0, 5)));
    assert_eq!(ta.screen_to_logical_position(3, 1, 80, 24), None);
    assert_eq!(ta.screen_to_logical_position(80, 0, 80, 24), None);
}

#[test]
fn tab_expands_to_next_stop() {
    assert_eq!(visual_width("a\tb", 2, 4), 4);
    assert_eq!(char_visual_width('\t', 1, 4), 3);
    assert_eq!(char_visual_width('\t', 4, 4), 4);
    assert_eq!(char_visual_width('\t', 3, 0), 0);
    assert_eq!(visual_width("a\tb", 3, 4), 5);
}

#[test]
fn unicode_widths_come_from_the_width_table() {
    assert_eq!(char_visual_width('世', 0, 4), 2);
    assert_eq!(char_visual_width('a', 7, 4), 1);
    assert_eq!(char_visual_width('\u{7}', 0, 4), 0);
    assert_eq!(char_visual_width('\u{301}', 0, 4), 0);
    assert_eq!(visual_width("Hello\t世界\tTab", 100, 4), 19);
}

#[test]
fn viewport_scroll_saturates_at_zero() {
    let mut vp = Viewport::new();
    vp.store(2, 5, 80, 24);
    vp.scroll(-10, -10);
    assert_eq!(vp.scroll_top(), (0, 0));
    assert_eq!(vp.rect(), (0, 0, 80, 24));
}

#[test]
fn viewport_scroll_saturates_at_max() {
    let mut vp = Viewport::new();
    vp.store(65530, 3, 1, 2);
    vp.scroll(100, i16::MIN);
    assert_eq!(vp.scroll_top(), (u16::MAX, 0));
    vp.scroll(-5, 7);
    assert_eq!(vp.rect(), (65530, 7, 1, 2));
}

#[test]
fn viewport_position_is_inclusive() {
    let mut vp = Viewport::new();
    assert_eq!(vp.position(), (0, 0, 0, 0));
    vp.store(10, 4, 80, 24);
    assert_eq!(vp.position(), (10, 4, 33, 83));
    vp.store(65535, 65535, 10, 10);
    assert_eq!(vp.position(), (65535, 65535, 65535, 65535));
}

#[test]
fn scroll_policy_keeps_cursor_visible() {
    assert_eq!(next_scroll_top(5, 2, 10), 2);
    assert_eq!(next_scroll_top(0, 15, 10), 6);
    assert_eq!(next_scroll_top(3, 5, 10), 3);
    assert_eq!(next_scroll_top(3, 12, 10), 3);
    assert_eq!(next_scroll_top(3, 13, 10), 4);
    assert_eq!(next_scroll_top(0, u16::MAX, 0), u16::MAX);
    for top in [0u16, 4, 9, 100] {
        for cursor in [0u16, 3, 9, 10, 50, 200] {
            let r = next_scroll_top(top, cursor, 7);
            assert!(r <= cursor && cursor <= r + 6);
        }
    }
}

#[test]
fn horizontal_range_clips_to_window() {
    assert_eq!(calculate_horizontal_range("abcdef", 2, 3, 4), (2, 5, 0));
    assert_eq!(calculate_horizontal_range("世界abc", 1, 3, 4), (0, 2, 1));
    assert_eq!(calculate_horizontal_range("世界abc", 1, 2, 4), (0, 1, 1));
    assert_eq!(calculate_horizontal_range("ab", 5, 3, 4), (2, 2, 0));
    assert_eq!(calculate_horizontal_range("abc", 0, 10, 4), (0, 3, 0));
}

#[test]
fn digits_of_row_count() {
    assert_eq!(num_digits(0), 1);
    assert_eq!(num_digits(9), 1);
    assert_eq!(num_digits(10), 2);
    assert_eq!(num_digits(12345), 5);
    assert_eq!(num_digits(usize::MAX), 20);
}

#[test]
fn effective_wrap_width_rules() {
    let mut ta = area(&["x"]);
    assert_eq!(ta.calculate_effective_wrap_width(20), 20);
    ta.set_line_numbers(true);
    assert_eq!(ta.calculate_effective_wrap_width(20), 17);
    assert_eq!(ta.calculate_effective_wrap_width(2), 1);
    ta.set_wrap_width(Some(30));
    assert_eq!(ta.wrap_width(), Some(30));
    assert_eq!(ta.calculate_effective_wrap_width(20), 30);
    ta.set_wrap_width(Some(0));
    assert_eq!(ta.calculate_effective_wrap_width(20), 1);
}

#[test]
fn cursor_cell_at_segment_boundary() {
    let segs = wrap_line("abcdefghij", 4);
    assert_eq!(cursor_cell(&segs, 0, 4), (0, 0));
    assert_eq!(cursor_cell(&segs, 4, 4), (0, 4));
    assert_eq!(cursor_cell(&segs, 5, 4), (1, 1));
    assert_eq!(cursor_cell(&segs, 10, 4), (2, 2));
    assert_eq!(cursor_cell(&segs, 99, 4), (2, 2));
}

#[test]
fn cursor_to_screen_unwrapped() {
    let mut ta = area(&["a\tb", "second"]);
    ta.jump_cursor(0, 2);
    assert_eq!(ta.logical_to_screen_position(80, 24), Some((4, 0)));
    ta.set_line_numbers(true);
    assert_eq!(ta.logical_to_screen_position(80, 24), Some((7, 0)));
    assert_eq!(ta.logical_to_screen_position(7, 24), None);
    ta.jump_cursor(1, 3);
    assert_eq!(ta.logical_to_screen_position(80, 24), Some((6, 1)));
    assert_eq!(ta.logical_to_screen_position(80, 1), None);
}

#[test]
fn cursor_to_screen_wrapped() {
    let mut ta = area(&["abcdefghij", "xy"]);
    ta.set_wrap(true);
    ta.set_wrap_width(Some(4));
    ta.jump_cursor(0, 4);
    assert_eq!(ta.logical_to_screen_position(20, 10), Some((4, 0)));
    ta.jump_cursor(0, 5);
    assert_eq!(ta.logical_to_screen_position(20, 10), Some((1, 1)));
    ta.jump_cursor(1, 1);
    assert_eq!(ta.logical_to_screen_position(20, 10), Some((1, 3)));
    assert_eq!(ta.logical_to_screen_position(20, 3), None);
}

#[test]
fn click_returns_to_cursor() {
    let mut ta = area(&["abcdefghij", "xy", "hello world"]);
    for wrap in [false, true] {
        ta.set_wrap(wrap);
        ta.set_wrap_width(Some(4));
        for (row, col) in [(0usize, 0usize), (0, 3), (0, 4), (0, 9), (0, 10), (1, 2), (2, 5), (2, 6)] {
            ta.jump_cursor(row, col);
            let (x, y) = ta.logical_to_screen_position(20, 12).expect("cursor on screen");
            assert_eq!(ta.screen_to_logical_position(x, y, 20, 12), Some((row, col)));
        }
    }
}

#[test]
fn click_returns_to_cursor_with_gutter() {
    let mut ta = area(&["one two three four", "", "five"]);
    ta.set_line_numbers(true);
    for wrap in [false, true] {
        ta.set_wrap(wrap);
        for (row, col) in [(0usize, 0usize), (0, 4), (0, 8), (0, 17), (0, 18), (1, 0), (2, 4)] {
            ta.jump_cursor(row, col);
            ta.render(12, 10);
            if ta.viewport().scroll_top().1 != 0 {
                continue;
            }
            let (x, y) = ta.logical_to_screen_position(12, 10).expect("cursor on screen");
            assert!(x >= 3);
            assert_eq!(ta.screen_to_logical_position(x, y, 12, 10), Some((row, col)));
        }
    }
}

#[test]
fn unwrapped_click_ignores_horizontal_scroll() {
    let mut ta = area(&["one two three four"]);
    ta.set_line_numbers(true);
    ta.jump_cursor(0, 17);
    ta.render(12, 10);
    assert_eq!(ta.viewport().scroll_top(), (0, 9));
    assert_eq!(ta.logical_to_screen_position(12, 10), Some((11, 0)));
    assert_eq!(ta.screen_to_logical_position(11, 0, 12, 10), Some((0, 8)));
}

#[test]
fn wrap_joins_back_into_line() {
    for (line, width) in [("hello world foo", 6), ("  leading  spaces here ", 5), ("", 3), ("a-b c", 2)] {
        let segs = wrap_line(line, width);
        assert!(!segs.is_empty());
        assert_eq!(segs.concat(), line);
        let ranges = wrap_segments(line, width);
        assert_eq!(ranges[0].0, 0);
        assert_eq!(ranges[ranges.len() - 1].1, line.chars().count());
    }
}

#[test]
fn wrap_forces_left_column_to_zero() {
    let mut ta = area(&["a very long line that does not fit in twenty columns"]);
    ta.scroll(0, 10);
    assert_eq!(ta.viewport().scroll_top(), (0, 10));
    ta.set_wrap(true);
    ta.render(20, 5);
    assert_eq!(ta.viewport().scroll_top().1, 0);
    assert_eq!(ta.viewport().rect(), (0, 0, 20, 5));
}

#[test]
fn render_unwrapped_scrolls_to_cursor() {
    let mut ta = area(&["abcdefghijklmnop", "xy"]);
    ta.jump_cursor(0, 12);
    let lines = ta.render(10, 5);
    assert_eq!(ta.viewport().scroll_top(), (0, 3));
    assert_eq!(
        lines,
        vec![
            DisplayLine { row: 0, start: 3, end: 13, first: true },
            DisplayLine { row: 1, start: 2, end: 2, first: true },
        ]
    );
}

#[test]
fn render_wrapped_lists_segments() {
    let mut ta = area(&["abcdefghij", "xy"]);
    ta.set_wrap(true);
    ta.set_wrap_width(Some(4));
    let lines = ta.render(20, 10);
    assert_eq!(
        lines,
        vec![
            DisplayLine { row: 0, start: 0, end: 4, first: true },
            DisplayLine { row: 0, start: 4, end: 8, first: false },
            DisplayLine { row: 0, start: 8, end: 10, first: false },
            DisplayLine { row: 1, start: 0, end: 2, first: true },
        ]
    );
    assert_eq!(ta.render(20, 2).len(), 2);
}

#[test]
fn render_scrolls_down_to_cursor_row() {
    let mut ta = area(&["0", "1", "2", "3", "4", "5"]);
    ta.jump_cursor(5, 0);
    let lines = ta.render(10, 3);
    assert_eq!(ta.viewport().scroll_top(), (3, 0));
    assert_eq!(lines.iter().map(|d| d.row).collect::<Vec<_>>(), vec![3, 4, 5]);
}

#[test]
fn mouse_click_moves_cursor_and_starts_selection() {
    let mut ta = area(&["hello", "world"]);
    let r = Rect { x: 2, y: 1, width: 10, height: 5 };
    assert!(ta.handle_mouse_click(4, 2, r));
    assert_eq!(ta.cursor(), (1, 2));
    assert_eq!(ta.selection_start(), Some((1, 2)));
    assert!(ta.handle_mouse_drag(3, 1, r));
    assert_eq!(ta.cursor(), (0, 1));
    assert_eq!(ta.selection_start(), Some((1, 2)));
    assert!(!ta.handle_mouse_up(20, 1, r));
    assert_eq!(ta.cursor(), (0, 1));
    assert!(ta.handle_mouse_up(9, 1, r));
    assert_eq!(ta.cursor(), (0, 5));
    assert!(!ta.handle_mouse_click(3, 5, r));
}

#[test]
fn mouse_event_dispatch() {
    let mut ta = area(&["hello"]);
    let r = Rect { x: 0, y: 0, width: 10, height: 3 };
    assert!(ta.handle_mouse_event(Key::MouseClick(2, 0), r));
    assert_eq!(ta.cursor(), (0, 2));
    assert!(!ta.handle_mouse_event(Key::Null, r));
    assert!(!ta.handle_mouse_event(Key::MouseScrollDown, r));
    assert!(ta.handle_mouse_event(Key::MouseUp(4, 0), r));
    assert_eq!(ta.cursor(), (0, 4));
}

#[test]
fn jump_cursor_clamps() {
    let mut ta = area(&["abc", "de"]);
    ta.jump_cursor(7, 9);
    assert_eq!(ta.cursor(), (1, 2));
    let empty = TextArea::new(Vec::new());
    assert_eq!(empty.lines().len(), 1);
    assert_eq!(empty.cursor(), (0, 0));
}

#[test]
fn settings_round_trip() {
    let mut ta = area(&["x"]);
    assert!(!ta.wrap_enabled());
    ta.set_wrap(true);
    assert!(ta.wrap_enabled());
    assert_eq!(ta.wrap_width(), None);
    ta.set_wrap_width(Some(80));
    assert_eq!(ta.wrap_width(), Some(80));
    assert_eq!(ta.tab_length(), 4);
    ta.set_tab_length(8);
    assert_eq!(ta.tab_length(), 8);
    assert!(!ta.line_numbers_enabled());
}

#[test]
fn unwrapped_rows_are_always_clipped() {
    let mut ta = area(&["\t\t", "世界ab", "abc"]);
    let lines = ta.render(3, 5);
    assert_eq!(
        lines,
        vec![
            DisplayLine { row: 0, start: 0, end: 0, first: true },
            DisplayLine { row: 1, start: 0, end: 1, first: true },
            DisplayLine { row: 2, start: 0, end: 3, first: true },
        ]
    );
}

#[test]
fn gutter_shows_right_aligned_numbers() {
    assert_eq!(line_number_text(7, 3), vec![' ', ' ', '7']);
    assert_eq!(line_number_text(1234, 2), vec!['1', '2', '3', '4']);
    assert_eq!(line_number_text(0, 1), vec!['0']);
    let rows: Vec<&str> = (0..12).map(|_| "x").collect();
    let mut ta = area(&rows);
    let first = DisplayLine { row: 8, start: 0, end: 1, first: true };
    let next = DisplayLine { row: 8, start: 1, end: 1, first: false };
    assert_eq!(ta.gutter_text(&first), Vec::<char>::new());
    ta.set_line_numbers(true);
    assert_eq!(ta.gutter_text(&first).into_iter().collect::<String>(), "  9 ");
    assert_eq!(ta.gutter_text(&next).into_iter().collect::<String>(), "    ");
    let last = DisplayLine { row: 11, start: 0, end: 1, first: true };
    assert_eq!(ta.gutter_text(&last).into_iter().collect::<String>(), " 12 ");
}
