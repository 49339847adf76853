use marko::code_highlight::{CodeFenceRegion, ColorRun, Highlighter};
use marko::editor::{
    available_text_width, char_class, format_for_save, gutter_width, mouse_to_buffer_pos,
    overlay_cells, painted_gutter, paragraph_range, reflow, rows_of_text, rows_shown,
    scroll_top_after, selected_text, word_count, word_range, wrap_point, EditorView,
    HighlightCache, OverlayCell,
};
use marko::preview::{Rect, Rgb};

fn strings(lines: &[&str]) -> Vec<String> {
    lines.iter().map(|l| l.to_string()).collect()
}

#[test]
fn char_classes() {
    assert_eq!(char_class('a'), 0);
    assert_eq!(char_class('9'), 0);
    assert_eq!(char_class('_'), 0);
    assert_eq!(char_class('é'), 0);
    assert_eq!(char_class(' '), 1);
    assert_eq!(char_class('\t'), 1);
    assert_eq!(char_class('.'), 2);
    assert_eq!(char_class('-'), 2);
}

#[test]
fn word_range_by_class() {
    let chars: Vec<char> = "hello...world  x".chars().collect();
    assert_eq!(word_range(&chars, 1), Some((0, 5)));
    assert_eq!(word_range(&chars, 6), Some((5, 8)));
    assert_eq!(word_range(&chars, 8), Some((8, 13)));
    assert_eq!(word_range(&chars, 13), Some((13, 15)));
    assert_eq!(word_range(&chars, 15), Some((15, 16)));
    assert_eq!(word_range(&chars, 16), None);
    assert_eq!(word_range(&Vec::new(), 0), None);
}

#[test]
fn paragraph_range_stops_at_empty_lines() {
    let lines = strings(&["one", "two", "  ", "three", "", "four"]);
    assert_eq!(paragraph_range(&lines, 0), Some((0, 1, 3)));
    assert_eq!(paragraph_range(&lines, 1), Some((0, 1, 3)));
    // from an empty line the paragraphs on both sides are taken
    assert_eq!(paragraph_range(&lines, 2), Some((0, 3, 5)));
    assert_eq!(paragraph_range(&lines, 3), Some((3, 3, 5)));
    assert_eq!(paragraph_range(&lines, 5), Some((5, 5, 4)));
    assert_eq!(paragraph_range(&lines, 6), None);
}

#[test]
fn selected_text_within_and_across_lines() {
    let lines = strings(&["hello world", "second", "third line"]);
    assert_eq!(selected_text(&lines, 0, 6, 0, 11), Some("world".to_string()));
    assert_eq!(selected_text(&lines, 0, 6, 2, 5), Some("world\nsecond\nthird".to_string()));
    assert_eq!(selected_text(&lines, 1, 0, 2, 0), Some("second\n".to_string()));
    assert_eq!(selected_text(&lines, 0, 3, 0, 3), Some(String::new()));
    assert_eq!(selected_text(&lines, 0, 6, 0, 99), Some("world".to_string()));
    assert_eq!(selected_text(&lines, 2, 0, 1, 0), None);
    assert_eq!(selected_text(&lines, 0, 0, 3, 0), None);
}

#[test]
fn selected_text_counts_characters() {
    let lines = strings(&["héllo wörld"]);
    assert_eq!(selected_text(&lines, 0, 1, 0, 5), Some("éllo".to_string()));
}

#[test]
fn word_count_over_lines() {
    assert_eq!(word_count(&strings(&["hello world", "", "  one  two three  "])), 5);
    assert_eq!(word_count(&strings(&[])), 0);
    assert_eq!(word_count(&strings(&["   "])), 0);
}

#[test]
fn gutter_is_digits_plus_two() {
    assert_eq!(gutter_width(1, true), 3);
    assert_eq!(gutter_width(9, true), 3);
    assert_eq!(gutter_width(10, true), 4);
    assert_eq!(gutter_width(99, true), 4);
    assert_eq!(gutter_width(100, true), 5);
    assert_eq!(gutter_width(0, true), 3);
    assert_eq!(gutter_width(1000, false), 0);
    assert_eq!(available_text_width(40, 1, true), 37);
    assert_eq!(available_text_width(40, 100, true), 35);
    assert_eq!(available_text_width(2, 1, true), 0);
    assert_eq!(available_text_width(40, 1, false), 40);
}

#[test]
fn wrap_point_breaks_at_the_last_space_before_the_width() {
    let split = wrap_point("hello world this is long", 24, 12).unwrap();
    assert_eq!(split.break_pos, 11);
    assert_eq!(split.indent, "");
    assert_eq!(split.cursor_col, Some(12));
    let split = wrap_point("hello world this is long", 3, 12).unwrap();
    assert_eq!(split.cursor_col, None);
}

#[test]
fn wrap_point_keeps_the_list_indent() {
    // the space right after the tenth character is the break
    let split = wrap_point("- item one two three", 20, 10).unwrap();
    assert_eq!(split.break_pos, 10);
    assert_eq!(split.indent, "  ");
    // the cursor stood 9 characters after the break
    assert_eq!(split.cursor_col, Some(2 + 9));
    let split = wrap_point("- item one two three", 20, 9).unwrap();
    assert_eq!(split.break_pos, 6);
    assert_eq!(split.cursor_col, Some(2 + 13));
}

#[test]
fn wrap_point_keeps_a_word_that_just_fills_the_width() {
    let split = wrap_point("hello world", 11, 5).unwrap();
    assert_eq!(split.break_pos, 5);
    assert_eq!(split.cursor_col, Some(5));
    assert!(wrap_point("helloworld x", 0, 5).is_none());
}

#[test]
fn wrap_point_leaves_fitting_and_exempt_lines() {
    assert!(wrap_point("short", 5, 10).is_none());
    assert!(wrap_point("exactly ten", 0, 11).is_none());
    assert!(wrap_point("# a heading that is long", 0, 10).is_none());
    assert!(wrap_point("  ``` fenced and long line", 0, 10).is_none());
    assert!(wrap_point("~~~ fenced and long line", 0, 10).is_none());
    assert!(wrap_point("| a | table | row | long", 0, 10).is_none());
    assert!(wrap_point("nospacesinthislongline", 0, 10).is_none());
    assert!(wrap_point(" leadingspaceonlyhere", 0, 10).is_none());
    assert!(wrap_point("anything at all", 0, 0).is_none());
}

#[test]
fn reflow_unwraps_from_the_original_when_unmodified() {
    let original = "word ".repeat(20);
    let original = original.trim();
    let narrow = reflow(original, original, false, (0, 0), 30);
    assert!(narrow.lines.len() > 1);
    assert!(!narrow.modified);
    for line in &narrow.lines {
        assert!(line.len() <= 30);
    }
    let current = narrow.lines.join("\n");
    let wide = reflow(original, &current, false, (3, 7), 200);
    assert_eq!(wide.lines, vec![original.to_string()]);
    assert_eq!(wide.cursor, (0, 7));
    assert!(!wide.modified);
    assert_eq!(wide.wrapped_original, original);
}

#[test]
fn reflow_wraps_the_current_text_when_modified() {
    let r = reflow("original text", "edited text that is longer", true, (0, 99), 12);
    assert_eq!(r.lines, vec!["edited text", "that is", "longer"]);
    assert_eq!(r.cursor, (0, 11));
    assert!(r.modified);
    assert_eq!(r.wrapped_original, "original\ntext");
}

#[test]
fn reflow_of_a_text_with_a_final_line_feed_is_no_edit() {
    let r = reflow("aaa bbb ccc\nddd\n", "", false, (0, 0), 7);
    assert_eq!(r.lines, vec!["aaa bbb", "ccc", "ddd"]);
    assert!(!r.modified);
    assert_eq!(r.wrapped_original, "aaa bbb\nccc\nddd");
}

#[test]
fn reflow_of_an_empty_text_holds_one_empty_line() {
    let r = reflow("", "", false, (5, 5), 10);
    assert_eq!(r.lines, vec![String::new()]);
    assert_eq!(r.cursor, (0, 0));
    assert!(!r.modified);
}

#[test]
fn format_for_save_formats_tables_and_wraps() {
    assert!(format_for_save("short line", 40, (0, 0)).is_none());
    let f = format_for_save("| a | b |\n|---|---|\n| c | d |", 21, (2, 50)).unwrap();
    assert_eq!(
        f.lines,
        vec!["| a       | b       |", "| ------- | ------- |", "| c       | d       |"]
    );
    assert_eq!(f.cursor, (2, 21));
    let f = format_for_save("aaa bbb ccc ddd", 8, (4, 0)).unwrap();
    assert_eq!(f.lines, vec!["aaa bbb", "ccc ddd"]);
    assert_eq!(f.cursor, (1, 0));
}

#[test]
fn mouse_position_maps_to_the_buffer() {
    let area = Rect::new(5, 2, 80, 20);
    assert_eq!(mouse_to_buffer_pos(10, 4, area, 0, 3), (2, 2));
    assert_eq!(mouse_to_buffer_pos(6, 2, area, 7, 3), (7, 0));
    assert_eq!(mouse_to_buffer_pos(5, 21, area, u16::MAX, 0), (u16::MAX, 0));
}

#[test]
fn scroll_follows_the_cursor() {
    assert_eq!(scroll_top_after(3, 5, 10), 3);
    assert_eq!(scroll_top_after(7, 5, 10), 5);
    assert_eq!(scroll_top_after(15, 5, 10), 6);
    assert_eq!(scroll_top_after(14, 5, 10), 5);
    assert_eq!(scroll_top_after(u16::MAX, 0, 0), u16::MAX);
}

fn run(r: u8, text: &str) -> ColorRun {
    ColorRun { r, g: 0, b: 0, text: text.to_string() }
}

fn cell(x: u16, y: u16, r: u8) -> OverlayCell {
    OverlayCell { x, y, color: Rgb { r, g: 0, b: 0 } }
}

#[test]
fn overlay_colors_the_visible_characters_but_not_the_cursor() {
    let regions = vec![CodeFenceRegion { start_line: 1, end_line: 4, language: "x".to_string() }];
    let highlights = vec![vec![vec![run(1, "ab"), run(2, "c")], vec![run(3, "de")]]];
    let view = EditorView {
        area: Rect::new(10, 5, 20, 4),
        scroll_top: 0,
        gutter_width: 2,
        cursor_row: 2,
        cursor_col: 1,
    };
    // text starts at column 10 + 2 + 1; line 2 is on screen row 5 + 2
    assert_eq!(
        overlay_cells(&regions, &highlights, view),
        vec![cell(13, 7, 1), cell(15, 7, 2), cell(13, 8, 3), cell(14, 8, 3)]
    );
}

#[test]
fn overlay_skips_lines_outside_the_viewport_and_cuts_at_the_edge() {
    let regions = vec![CodeFenceRegion { start_line: 0, end_line: 3, language: String::new() }];
    let highlights = vec![vec![vec![run(1, "abcdef")], vec![run(2, "xy")]]];
    let view = EditorView {
        area: Rect::new(0, 0, 6, 1),
        scroll_top: 1,
        gutter_width: 2,
        cursor_row: 9,
        cursor_col: 0,
    };
    // only line 1 is visible, and only three columns are left of the edge
    assert_eq!(
        overlay_cells(&regions, &highlights, view),
        vec![cell(3, 0, 1), cell(4, 0, 1), cell(5, 0, 1)]
    );
    let below = EditorView { scroll_top: 5, ..view };
    assert!(overlay_cells(&regions, &highlights, below).is_empty());
}

#[test]
fn highlight_cache_waits_for_the_highlighter() {
    let lines = strings(&["```rust", "let x = 1;", "```"]);
    let mut cache = HighlightCache::new();
    assert!(cache.dirty);
    assert!(!cache.refresh(&lines, None));
    assert!(cache.dirty);
    assert!(cache.regions.is_empty());
    let hl = Highlighter::load();
    assert!(cache.refresh(&lines, Some(&hl)));
    assert!(!cache.dirty);
    assert_eq!(cache.regions.len(), 1);
    assert_eq!(cache.highlights.len(), 1);
    assert_eq!(cache.highlights[0].len(), 1);
    let text: String = cache.highlights[0][0].iter().map(|r| r.text.as_str()).collect();
    assert_eq!(text, "let x = 1;");
    // nothing is computed anew until the buffer changes
    let other = strings(&["no fence"]);
    assert!(cache.refresh(&other, None));
    assert_eq!(cache.regions.len(), 1);
    cache.invalidate();
    assert!(cache.refresh(&other, Some(&hl)));
    assert!(cache.regions.is_empty());
}

#[test]
fn the_painted_gutter_is_the_digits_and_a_space() {
    assert_eq!(painted_gutter(0), 2);
    assert_eq!(painted_gutter(9), 2);
    assert_eq!(painted_gutter(10), 3);
    assert_eq!(painted_gutter(12345), 6);
}

#[test]
fn rows_below_the_text_start_after_the_last_line() {
    assert_eq!(rows_of_text(5, 0), 5);
    assert_eq!(rows_of_text(5, 3), 2);
    assert_eq!(rows_of_text(5, 5), 0);
    assert_eq!(rows_of_text(5, 9), 0);
    assert_eq!(rows_of_text(70_000, 10), 65_525);
}

#[test]
fn rows_with_lines_end_with_the_pane_or_the_buffer() {
    assert_eq!(rows_shown(10, 100, 0), 10);
    assert_eq!(rows_shown(10, 100, 95), 5);
    assert_eq!(rows_shown(10, 100, 100), 0);
    assert_eq!(rows_shown(10, 3, 0), 3);
    assert_eq!(rows_shown(0, 3, 0), 0);
    assert_eq!(rows_shown(10, 70_000, 65_535), 10);
}
