use marko::buffer::{
    after_edit, auto_close_after, auto_wrap_line, click_at, end_drag, enter_continuation,
    get_selected_text, go_to_line_start, handle_auto_close, handle_enter_continuation,
    prepare_save, reflow_content, select_paragraph_at_cursor, select_word_at_cursor,
    textarea_content, Buffer, WrapState, MAX_WRAP_STEPS,
};
use marko::autocomplete::Continuation;
use tui_textarea::{CursorMove, TextArea};

fn buffer_with_content(content: &str) -> Buffer {
    let lines: Vec<String> = if content.is_empty() {
        vec![String::new()]
    } else {
        content.lines().map(String::from).collect()
    };
    Buffer { textarea: TextArea::new(lines) }
}

#[test]
fn tests_select_word_at_cursor_selects_word() {
    let mut buffer = buffer_with_content("hello world");
    buffer.textarea.move_cursor(CursorMove::Jump(0, 1));
    select_word_at_cursor(&mut buffer);
    let range = buffer.textarea.selection_range();
    assert!(range.is_some(), "Should have a selection");
    let ((sr, sc), (er, ec)) = range.unwrap();
    assert_eq!((sr, sc), (0, 0));
    assert_eq!((er, ec), (0, 5)); // "hello" = 5 chars
}

#[test]
fn tests_select_word_at_cursor_selects_second_word() {
    let mut buffer = buffer_with_content("hello world");
    buffer.textarea.move_cursor(CursorMove::Jump(0, 7));
    select_word_at_cursor(&mut buffer);
    let range = buffer.textarea.selection_range();
    assert!(range.is_some());
    let ((sr, sc), (er, ec)) = range.unwrap();
    assert_eq!((sr, sc), (0, 6));
    assert_eq!((er, ec), (0, 11)); // "world" = 5 chars at offset 6
}

#[test]
fn tests_select_word_at_cursor_selects_punctuation() {
    let mut buffer = buffer_with_content("hello...world");
    buffer.textarea.move_cursor(CursorMove::Jump(0, 6));
    select_word_at_cursor(&mut buffer);
    let range = buffer.textarea.selection_range();
    assert!(range.is_some());
    let ((sr, sc), (er, ec)) = range.unwrap();
    assert_eq!((sr, sc), (0, 5));
    assert_eq!((er, ec), (0, 8)); // "..." = 3 chars at offset 5
}

#[test]
fn tests_select_paragraph_single_paragraph() {
    let mut buffer = buffer_with_content("line one\nline two\nline three");
    buffer.textarea.move_cursor(CursorMove::Jump(1, 0));
    select_paragraph_at_cursor(&mut buffer);
    let range = buffer.textarea.selection_range();
    assert!(range.is_some());
    let ((sr, sc), (er, ec)) = range.unwrap();
    assert_eq!((sr, sc), (0, 0));
    assert_eq!(er, 2);
    assert_eq!(ec, 10); // "line three".len()
}

#[test]
fn tests_select_paragraph_stops_at_empty_line() {
    let mut buffer = buffer_with_content("para one\n\npara two");
    buffer.textarea.move_cursor(CursorMove::Jump(2, 0));
    select_paragraph_at_cursor(&mut buffer);
    let range = buffer.textarea.selection_range();
    assert!(range.is_some());
    let ((sr, sc), (er, ec)) = range.unwrap();
    assert_eq!((sr, sc), (2, 0)); // starts at line 2 (after empty line)
    assert_eq!((er, ec), (2, 8)); // "para two".len()
}

#[test]
fn select_word_past_the_line_selects_nothing() {
    let mut buffer = buffer_with_content("hi");
    buffer.textarea.move_cursor(CursorMove::Jump(0, 2));
    assert!(!select_word_at_cursor(&mut buffer));
    assert!(buffer.textarea.selection_range().is_none());
}

#[test]
fn typing_triggers_wrap() {
    let mut buffer = buffer_with_content("hello world");
    buffer.textarea.move_cursor(CursorMove::End);
    for ch in " this is extra text that overflows".chars() {
        buffer.textarea.insert_char(ch);
        auto_wrap_line(&mut buffer, 20);
    }
    assert!(
        buffer.textarea.lines().len() > 1,
        "Typing past viewport width should trigger auto-wrap"
    );
    for line in buffer.textarea.lines() {
        assert!(line.len() <= 20, "line too long: {:?}", line);
    }
    assert_eq!(
        buffer.textarea.lines().join(" "),
        "hello world this is extra text that overflows"
    );
    // the cursor is still at the end of what was typed
    let (row, col) = buffer.textarea.cursor();
    assert_eq!(row, buffer.textarea.lines().len() - 1);
    assert_eq!(col, buffer.textarea.lines()[row].len());
}

#[test]
fn auto_wrap_splits_a_pasted_line_until_it_fits() {
    let mut buffer = buffer_with_content("");
    buffer.textarea.insert_str("- ".to_string() + &"word ".repeat(12));
    let steps = auto_wrap_line(&mut buffer, 20);
    assert!(steps >= 1);
    assert!(steps <= MAX_WRAP_STEPS);
    let lines = buffer.textarea.lines();
    assert_eq!(lines[0], "- word word word");
    // the cursor stood at the end, so every further line was split in turn
    for line in &lines[1..] {
        assert!(line.starts_with("  "), "got {:?}", line);
    }
}

#[test]
fn auto_wrap_leaves_headings_alone() {
    let mut buffer = buffer_with_content(&format!("# {}", "word ".repeat(20)));
    assert_eq!(auto_wrap_line(&mut buffer, 20), 0);
    assert_eq!(buffer.textarea.lines().len(), 1);
}

#[test]
fn first_render_wraps_long_lines() {
    let long_line = "word ".repeat(40); // 200 chars
    let content = long_line.trim().to_string();
    let mut buffer = buffer_with_content(&content);
    let mut state = WrapState::new(content);
    // Before the first render, content is raw (unwrapped)
    assert_eq!(buffer.textarea.lines().len(), 1);

    let text_width = marko::editor::available_text_width(40, 1, false);
    assert!(text_width > 0);
    // last_wrap_width starts at 0, so reflow is triggered
    assert!(state.needs_reflow(text_width));
    reflow_content(&mut buffer, &mut state, text_width);

    assert!(
        buffer.textarea.lines().len() > 1,
        "Long lines should be hard-wrapped on first render reflow"
    );
    assert!(!state.modified, "Reflowed content should not mark file as modified");
    assert!(!state.needs_reflow(text_width));
}

#[test]
fn reflow_to_wider_width_unwraps_lines() {
    let long_line = "word ".repeat(20); // 100 chars
    let content = long_line.trim().to_string();
    let mut buffer = buffer_with_content(&content);
    let mut state = WrapState::new(content);
    reflow_content(&mut buffer, &mut state, 30);
    let narrow_line_count = buffer.textarea.lines().len();
    assert!(narrow_line_count > 1, "Should wrap at narrow width");

    reflow_content(&mut buffer, &mut state, 80);
    let wide_line_count = buffer.textarea.lines().len();
    assert!(
        wide_line_count < narrow_line_count,
        "Expanding should unwrap lines: {} should be less than {}",
        wide_line_count,
        narrow_line_count
    );
    assert!(!state.modified, "Reflow should not mark file as modified");
}

#[test]
fn reflow_with_zero_width_changes_nothing() {
    let mut buffer = buffer_with_content("some text here");
    let mut state = WrapState::new("some text here".to_string());
    assert!(!reflow_content(&mut buffer, &mut state, 0));
    assert_eq!(buffer.textarea.lines(), ["some text here"]);
    assert_eq!(state.last_wrap_width, 0);
}

#[test]
fn reflow_keeps_the_cursor_within_the_new_lines() {
    let mut buffer = buffer_with_content("aaa bbb ccc ddd");
    let mut state = WrapState::new("aaa bbb ccc ddd".to_string());
    buffer.textarea.move_cursor(CursorMove::Jump(0, 13));
    reflow_content(&mut buffer, &mut state, 8);
    assert_eq!(buffer.textarea.lines(), ["aaa bbb", "ccc ddd"]);
    assert_eq!(buffer.textarea.cursor(), (0, 7));
}

#[test]
fn update_modified_compares_with_the_wrapped_original() {
    let mut buffer = buffer_with_content("hello");
    let mut state = WrapState::new("hello".to_string());
    state.update_modified(&buffer);
    assert!(!state.modified);
    buffer.textarea.insert_char('!');
    state.update_modified(&buffer);
    assert!(state.modified);
    state.mark_saved("!hello".to_string());
    assert!(!state.modified);
    assert_eq!(state.original_content, "!hello");
}

#[test]
fn content_is_the_lines_joined() {
    let buffer = buffer_with_content("a\nb\n\nc");
    assert_eq!(textarea_content(&buffer), "a\nb\n\nc");
    assert_eq!(textarea_content(&buffer_with_content("")), "");
}

#[test]
fn selected_text_follows_the_selection() {
    let mut buffer = buffer_with_content("hello world\nnext");
    assert_eq!(get_selected_text(&buffer), None);
    buffer.textarea.move_cursor(CursorMove::Jump(0, 6));
    buffer.textarea.start_selection();
    buffer.textarea.move_cursor(CursorMove::Jump(1, 2));
    assert_eq!(get_selected_text(&buffer), Some("world\nne".to_string()));
}

#[test]
fn enter_continues_a_list_only_at_the_end_of_the_line() {
    assert_eq!(enter_continuation("- item", 6), Continuation::Continue("- ".to_string()));
    assert_eq!(enter_continuation("- item", 3), Continuation::Nothing);
    let mut buffer = buffer_with_content("- item");
    buffer.textarea.move_cursor(CursorMove::End);
    assert!(handle_enter_continuation(&mut buffer));
    assert_eq!(buffer.textarea.lines(), ["- item", "- "]);
    assert_eq!(buffer.textarea.cursor(), (1, 2));
    // Enter on the empty item clears it
    assert!(handle_enter_continuation(&mut buffer));
    assert_eq!(buffer.textarea.lines(), ["- item", ""]);
    // and on plain text does nothing special
    let mut plain = buffer_with_content("text");
    plain.textarea.move_cursor(CursorMove::End);
    assert!(!handle_enter_continuation(&mut plain));
    assert_eq!(plain.textarea.lines(), ["text"]);
}

#[test]
fn pairs_are_closed_with_the_cursor_between() {
    assert_eq!(auto_close_after('(', None), Some(')'));
    assert_eq!(auto_close_after('`', Some('`')), None);
    assert_eq!(auto_close_after('`', Some('a')), Some('`'));
    assert_eq!(auto_close_after('\'', Some('n')), None);
    assert_eq!(auto_close_after('"', Some(' ')), Some('"'));
    assert_eq!(auto_close_after('x', None), None);
    let mut buffer = buffer_with_content("f");
    buffer.textarea.move_cursor(CursorMove::End);
    assert!(handle_auto_close(&mut buffer, '('));
    assert_eq!(buffer.textarea.lines(), ["f()"]);
    assert_eq!(buffer.textarea.cursor(), (0, 2));
    let mut word = buffer_with_content("don");
    word.textarea.move_cursor(CursorMove::End);
    assert!(!handle_auto_close(&mut word, '\''));
    assert_eq!(word.textarea.lines(), ["don"]);
}

#[test]
fn prepare_save_formats_the_buffer() {
    let mut buffer = buffer_with_content("| a | b |\n|---|---|\n| c | d |");
    let content = prepare_save(&mut buffer, 21);
    assert_eq!(
        content,
        "| a       | b       |\n| ------- | ------- |\n| c       | d       |"
    );
    assert_eq!(buffer.textarea.lines().len(), 3);
    let mut plain = buffer_with_content("short");
    assert_eq!(prepare_save(&mut plain, 40), "short");
}

#[test]
fn line_numbers_take_their_share_of_the_width() {
    // 30 characters fit 30 columns without line numbers
    let line = "aaaa bbbb cccc dddd eeee ffff.";
    let mut plain = buffer_with_content(line);
    assert_eq!(auto_wrap_line(&mut plain, 30), 0);
    // with line numbers the gutter takes three of them
    let mut numbered = buffer_with_content(line);
    numbered.textarea.set_line_number_style(ratatui::style::Style::default());
    assert_eq!(auto_wrap_line(&mut numbered, 30), 1);
    assert_eq!(numbered.textarea.lines(), ["aaaa bbbb cccc dddd eeee", "ffff."]);
}

#[test]
fn jumps_are_brought_into_the_text() {
    let mut buffer = buffer_with_content("ab\ncdef");
    buffer.textarea.move_cursor(CursorMove::Jump(0, 1));
    // a word that ends at the end of the line: the selection ends there
    assert!(select_word_at_cursor(&mut buffer));
    assert_eq!(buffer.textarea.cursor(), (0, 2));
    let mut state = WrapState::new("ab\ncdef".to_string());
    buffer.textarea.move_cursor(CursorMove::Jump(1, 4));
    reflow_content(&mut buffer, &mut state, 3);
    // "cdef" is too long for three columns and has no space: it is cut
    assert_eq!(buffer.textarea.lines(), ["ab", "cde", "f"]);
    assert_eq!(buffer.textarea.cursor(), (1, 3));
}

#[test]
fn a_pair_goes_in_where_the_cursor_stands() {
    let mut buffer = buffer_with_content("ab\ncd");
    buffer.textarea.move_cursor(CursorMove::Jump(1, 1));
    assert!(handle_auto_close(&mut buffer, '['));
    assert_eq!(buffer.textarea.lines(), ["ab", "c[]d"]);
    assert_eq!(buffer.textarea.cursor(), (1, 2));
    assert_eq!(buffer.textarea.selection_range(), None);
    // a quote after a letter is an apostrophe, after a bracket it opens a pair
    assert!(handle_auto_close(&mut buffer, '"'));
    assert_eq!(buffer.textarea.lines(), ["ab", "c[\"\"]d"]);
    assert_eq!(buffer.textarea.cursor(), (1, 3));
}

#[test]
fn clearing_an_empty_item_ends_a_selection_too() {
    let mut buffer = buffer_with_content("- one\n  - ");
    buffer.textarea.move_cursor(CursorMove::Jump(0, 2));
    buffer.textarea.start_selection();
    buffer.textarea.move_cursor(CursorMove::Jump(1, 4));
    assert!(handle_enter_continuation(&mut buffer));
    assert_eq!(buffer.textarea.lines(), ["- one", ""]);
    assert_eq!(buffer.textarea.cursor(), (1, 0));
    assert_eq!(buffer.textarea.selection_range(), None);
}

#[test]
fn a_continued_item_goes_between_the_lines() {
    let mut buffer = buffer_with_content("1. one\nlast");
    buffer.textarea.move_cursor(CursorMove::Jump(0, 6));
    assert!(handle_enter_continuation(&mut buffer));
    assert_eq!(buffer.textarea.lines(), ["1. one", "2. ", "last"]);
    assert_eq!(buffer.textarea.cursor(), (1, 3));
}

#[test]
fn selecting_a_word_replaces_an_earlier_selection() {
    let mut buffer = buffer_with_content("alpha beta");
    buffer.textarea.start_selection();
    buffer.textarea.move_cursor(CursorMove::Jump(0, 7));
    assert!(select_word_at_cursor(&mut buffer));
    assert_eq!(buffer.textarea.selection_range(), Some(((0, 6), (0, 10))));
    assert_eq!(get_selected_text(&buffer), Some("beta".to_string()));
    // on the space between the words the space is the word
    buffer.textarea.cancel_selection();
    buffer.textarea.move_cursor(CursorMove::Jump(0, 5));
    assert!(select_word_at_cursor(&mut buffer));
    assert_eq!(buffer.textarea.selection_range(), Some(((0, 5), (0, 6))));
}

#[test]
fn wrapping_moves_the_cursor_with_its_text() {
    let mut buffer = buffer_with_content("- aaaa bbbb cccc dddd");
    buffer.textarea.move_cursor(CursorMove::Jump(0, 19));
    assert_eq!(auto_wrap_line(&mut buffer, 12), 1);
    assert_eq!(buffer.textarea.lines(), ["- aaaa bbbb", "  cccc dddd"]);
    assert_eq!(buffer.textarea.cursor(), (1, 9));
}

#[test]
fn a_plain_click_starts_a_selection_where_it_lands() {
    let mut buffer = buffer_with_content("hello world\n\nsecond");
    buffer.textarea.start_selection();
    buffer.textarea.move_cursor(CursorMove::End);
    assert!(click_at(&mut buffer, 1, 0, 3));
    assert_eq!(buffer.textarea.cursor(), (0, 3));
    assert_eq!(buffer.textarea.selection_range(), Some(((0, 3), (0, 3))));
    // a click past the text lands on the last line, at its end
    assert!(click_at(&mut buffer, 1, 9, 40));
    assert_eq!(buffer.textarea.cursor(), (2, 6));
    assert_eq!(buffer.textarea.selection_range(), Some(((2, 6), (2, 6))));
}

#[test]
fn a_second_click_selects_the_word_and_a_third_the_paragraph() {
    let mut buffer = buffer_with_content("one two\nthree\n\nfour");
    assert!(!click_at(&mut buffer, 2, 0, 5));
    assert_eq!(buffer.textarea.selection_range(), Some(((0, 4), (0, 7))));
    assert!(!click_at(&mut buffer, 3, 0, 5));
    assert_eq!(buffer.textarea.selection_range(), Some(((0, 0), (1, 5))));
    assert_eq!(get_selected_text(&buffer), Some("one two\nthree".to_string()));
    // a second click past the end of a line finds no word there
    let mut short = buffer_with_content("ab");
    assert!(!click_at(&mut short, 2, 0, 9));
    assert_eq!(short.textarea.cursor(), (0, 2));
    assert_eq!(short.textarea.selection_range(), None);
}

#[test]
fn a_drag_that_selected_nothing_leaves_no_selection() {
    let mut buffer = buffer_with_content("hello world");
    click_at(&mut buffer, 1, 0, 4);
    end_drag(&mut buffer);
    assert_eq!(buffer.textarea.selection_range(), None);
    assert_eq!(buffer.textarea.cursor(), (0, 4));
    click_at(&mut buffer, 1, 0, 4);
    buffer.textarea.move_cursor(CursorMove::Jump(0, 8));
    end_drag(&mut buffer);
    assert_eq!(buffer.textarea.selection_range(), Some(((0, 4), (0, 8))));
    // without a selection nothing happens
    let mut plain = buffer_with_content("x");
    end_drag(&mut plain);
    assert_eq!(plain.textarea.selection_range(), None);
}

#[test]
fn going_to_the_line_start_ends_the_selection() {
    let mut buffer = buffer_with_content("hello world\nnext");
    buffer.textarea.move_cursor(CursorMove::Jump(1, 2));
    buffer.textarea.start_selection();
    buffer.textarea.move_cursor(CursorMove::End);
    go_to_line_start(&mut buffer);
    assert_eq!(buffer.textarea.cursor(), (1, 0));
    assert_eq!(buffer.textarea.selection_range(), None);
    assert_eq!(buffer.textarea.lines(), ["hello world", "next"]);
}

#[test]
fn an_edit_sets_the_flag_and_wraps_the_line() {
    let mut buffer = buffer_with_content("aaaa bbbb");
    let mut state = WrapState::new("aaaa bbbb".to_string());
    assert_eq!(after_edit(&mut buffer, &mut state, 20), 0);
    assert!(!state.modified);
    buffer.textarea.move_cursor(CursorMove::End);
    buffer.textarea.insert_str(" cccc dddd eeee");
    assert_eq!(after_edit(&mut buffer, &mut state, 20), 1);
    assert!(state.modified);
    assert_eq!(buffer.textarea.lines(), ["aaaa bbbb cccc dddd", "eeee"]);
    assert_eq!(buffer.textarea.cursor(), (1, 4));
}

#[test]
fn wrapping_leaves_a_cursor_before_the_break_where_it_is() {
    let mut buffer = buffer_with_content("first\naaaa bbbb cccc dddd eeee ffff\nlast");
    buffer.textarea.move_cursor(CursorMove::Jump(1, 3));
    assert_eq!(auto_wrap_line(&mut buffer, 10), 2);
    assert_eq!(
        buffer.textarea.lines(),
        ["first", "aaaa bbbb", "cccc dddd", "eeee ffff", "last"]
    );
    // the cursor is still on the fourth character of its line
    assert_eq!(buffer.textarea.cursor(), (1, 3));
    assert_eq!(buffer.textarea.selection_range(), None);
}

#[test]
fn wrapping_leaves_a_cursor_on_the_break_at_the_end_of_its_line() {
    let mut buffer = buffer_with_content("aaaa bbbb cccc");
    buffer.textarea.move_cursor(CursorMove::Jump(0, 9));
    assert_eq!(auto_wrap_line(&mut buffer, 10), 1);
    assert_eq!(buffer.textarea.lines(), ["aaaa bbbb", "cccc"]);
    assert_eq!(buffer.textarea.cursor(), (0, 9));
}

#[test]
fn wrapping_takes_a_cursor_behind_the_break_along_with_its_text() {
    let mut buffer = buffer_with_content("- aaaa bbbb cccc dddd eeee");
    // on the second `d`
    buffer.textarea.move_cursor(CursorMove::Jump(0, 18));
    assert_eq!(auto_wrap_line(&mut buffer, 12), 2);
    assert_eq!(buffer.textarea.lines(), ["- aaaa bbbb", "  cccc dddd", "  eeee"]);
    assert_eq!(buffer.textarea.cursor(), (1, 8));
    assert_eq!(buffer.textarea.lines()[1].chars().nth(8), Some('d'));
    // behind the second break the cursor goes on to the third line
    let mut buffer = buffer_with_content("- aaaa bbbb cccc dddd eeee");
    buffer.textarea.move_cursor(CursorMove::Jump(0, 23));
    assert_eq!(auto_wrap_line(&mut buffer, 12), 2);
    assert_eq!(buffer.textarea.cursor(), (2, 3));
    assert_eq!(buffer.textarea.lines()[2].chars().nth(3), Some('e'));
}
