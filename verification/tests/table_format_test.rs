use marko::table_format::{
    continuation_indent, distribute_widths, format_tables, hard_wrap, is_separator_row,
    negotiate_widths, parse_cells, shrink_widths, try_format_table,
};

#[test]
fn test_simple_table_formatting() {
    let input = "| a | b |\n|---|---|\n| c | d |";
    let result = format_tables(input, 40);
    // Should contain formatted table with | separators
    assert!(result.contains('|'));
    // All lines should have same number of | characters
    let lines: Vec<&str> = result.lines().collect();
    assert_eq!(lines.len(), 3);
}

#[test]
fn test_non_table_passthrough() {
    let input = "Hello world\nThis is not a table";
    let result = format_tables(input, 80);
    assert_eq!(result, "Hello world\nThis is not a table");
}

#[test]
fn test_mixed_content() {
    let input = "# Heading\n\n| a | b |\n|---|---|\n| c | d |\n\nParagraph";
    let result = format_tables(input, 40);
    assert!(result.starts_with("# Heading"));
    assert!(result.ends_with("Paragraph"));
}

#[test]
fn test_separator_detection() {
    assert!(is_separator_row("| --- | --- |"));
    assert!(is_separator_row("|---|---|"));
    assert!(is_separator_row("| :---: | ---: |"));
    assert!(!is_separator_row("| hello | world |"));
    assert!(!is_separator_row("no pipes here"));
}

#[test]
fn test_parse_cells() {
    let cells = parse_cells("| hello | world |");
    assert_eq!(cells, vec!["hello", "world"]);
}

#[test]
fn test_distribute_widths() {
    let natural = vec![5, 10, 5];
    let widths = distribute_widths(&natural, 40);
    assert_eq!(widths.iter().sum::<usize>(), 40);
    // Each column should be at least its natural width
    for (i, &w) in widths.iter().enumerate() {
        assert!(w >= natural[i]);
    }
}

#[test]
fn test_uneven_columns() {
    let input = "| short | a much longer column |\n|---|---|\n| x | y |";
    let result = format_tables(input, 60);
    let lines: Vec<&str> = result.lines().collect();
    assert_eq!(lines.len(), 3);
    // All data rows should have same length
    assert_eq!(lines[0].len(), lines[2].len());
}

#[test]
fn test_shrink_widths() {
    let natural = vec![20, 30, 20];
    let widths = shrink_widths(&natural, 35);
    assert_eq!(widths.iter().sum::<usize>(), 35);
    // Each column should be at least the minimum (3)
    for &w in &widths {
        assert!(w >= 3);
    }
}

#[test]
fn test_format_table_shrinks_to_narrow_terminal() {
    let input = "| Long Header One | Long Header Two |\n|---|---|\n| wide content aa | wide content bb |";
    let narrow = 30;
    let result = format_tables(input, narrow);
    for line in result.lines() {
        assert!(
            line.len() <= narrow,
            "Table line '{}' (len {}) exceeds terminal width {}",
            line,
            line.len(),
            narrow
        );
    }
}

#[test]
fn test_hard_wrap_short_lines_unchanged() {
    let input = "short line\nanother short";
    assert_eq!(hard_wrap(input, 40), input);
}

#[test]
fn test_hard_wrap_long_line_wraps() {
    let input = "this is a somewhat long line that should be wrapped at a reasonable boundary";
    let result = hard_wrap(input, 30);
    for line in result.lines() {
        assert!(
            line.len() <= 30,
            "Wrapped line '{}' (len {}) exceeds width 30",
            line, line.len()
        );
    }
    // Content should be preserved (joined with spaces it gives the input back)
    let rejoined: String = result.lines().collect::<Vec<_>>().join(" ");
    assert_eq!(rejoined, input);
}

#[test]
fn test_hard_wrap_preserves_code_fences() {
    let long_code = "x".repeat(80);
    let input = format!("```\n{}\n```", long_code);
    let result = hard_wrap(&input, 40);
    assert_eq!(result, input, "Code fences should not be wrapped");
}

#[test]
fn test_hard_wrap_preserves_table_lines() {
    let input = "| a very long cell value here | another long cell |\n|---|---|\n| data | more |";
    let result = hard_wrap(input, 20);
    // Table lines should pass through unchanged
    assert_eq!(result, input);
}

#[test]
fn test_hard_wrap_list_continuation_indent() {
    let input = "- this is a very long list item that should wrap with proper indentation";
    let result = hard_wrap(input, 40);
    let lines: Vec<&str> = result.lines().collect();
    assert!(lines.len() > 1, "Should wrap into multiple lines");
    // Continuation lines should start with 2-space indent
    for line in &lines[1..] {
        assert!(
            line.starts_with("  "),
            "Continuation should be indented, got: '{}'", line
        );
    }
}

#[test]
fn test_hard_wrap_blockquote_continuation() {
    let input = "> this is a long blockquote line that should wrap while preserving the quote marker";
    let result = hard_wrap(input, 40);
    let lines: Vec<&str> = result.lines().collect();
    assert!(lines.len() > 1);
    for line in &lines[1..] {
        assert!(
            line.starts_with("> "),
            "Continuation should keep '> ' prefix, got: '{}'", line
        );
    }
}

#[test]
fn distribute_widths_exact_values() {
    // extra = 20, total = 20: shares 5 and 10, the last column takes the rest
    assert_eq!(distribute_widths(&[5, 10, 5], 40), vec![10, 20, 10]);
    // a half rounds up: extra = 1, shares of 1 * 3 / 6 = 0.5
    assert_eq!(distribute_widths(&[3, 3], 7), vec![4, 3]);
    // nothing to spare: unchanged
    assert_eq!(distribute_widths(&[5, 5], 10), vec![5, 5]);
    assert_eq!(distribute_widths(&[5, 5], 4), vec![5, 5]);
    assert_eq!(distribute_widths(&[], 4), Vec::<usize>::new());
}

#[test]
fn distribute_widths_hands_out_no_more_than_the_surplus() {
    // three halves would round up to 3, more than the surplus of 2: the
    // shares end where the surplus does
    assert_eq!(distribute_widths(&[3, 3, 3, 3], 14), vec![4, 4, 3, 3]);
    assert_eq!(distribute_widths(&[4, 4, 4, 4], 18), vec![5, 5, 4, 4]);
    assert_eq!(distribute_widths(&[3, 3, 3, 3, 3, 3, 3], 25), vec![4, 4, 4, 4, 3, 3, 3]);
}

#[test]
fn shrunk_widths_leave_room_for_the_columns_after_them() {
    // 9 * 100 / 203 = 4 would leave 2 for the last column
    assert_eq!(shrink_widths(&[3, 100, 100], 9), vec![3, 3, 3]);
    // 12 * 100 / 106 = 11 would leave 1 for two columns
    assert_eq!(shrink_widths(&[100, 3, 3], 12), vec![6, 3, 3]);
    assert_eq!(shrink_widths(&[50, 50], 7), vec![3, 4]);
    // too little for the minimum of every column: the minimum stays
    assert_eq!(shrink_widths(&[10, 10, 10], 7), vec![3, 3, 3]);
}

#[test]
fn formatted_rows_take_the_terminal_width() {
    let table = "| aaaa | bbbb | cccc | dddd |\n|---|---|---|---|";
    for width in [29, 30, 31, 32, 40, 57] {
        for line in format_tables(table, width).lines() {
            assert_eq!(line.chars().count(), width, "{:?}", line);
        }
    }
    // formatting what is formatted changes nothing
    let once = format_tables(table, 31);
    assert_eq!(format_tables(&once, 31), once);
    // a table that cannot fit keeps three columns for every cell
    for line in format_tables(table, 20).lines() {
        assert_eq!(line.chars().count(), 4 * 3 + 13);
    }
}

#[test]
fn shrink_widths_exact_values() {
    // 35 * 20 / 70 = 10, 35 * 30 / 70 = 15, rest 10
    assert_eq!(shrink_widths(&[20, 30, 20], 35), vec![10, 15, 10]);
    // shares under the minimum are raised to it, and so is the rest
    assert_eq!(shrink_widths(&[10, 10, 10], 6), vec![3, 3, 3]);
    assert_eq!(shrink_widths(&[0, 0], 6), vec![0, 0]);
}

#[test]
fn negotiate_widths_picks_the_case() {
    assert_eq!(negotiate_widths(&[5, 10, 5], 40), vec![10, 20, 10]);
    assert_eq!(negotiate_widths(&[20, 30, 20], 35), vec![10, 15, 10]);
    assert_eq!(negotiate_widths(&[20, 30, 20], 70), vec![20, 30, 20]);
    assert_eq!(negotiate_widths(&[20, 30, 20], 0), vec![20, 30, 20]);
}

#[test]
fn separator_row_edge_cases() {
    assert!(is_separator_row("---|---"));
    assert!(is_separator_row("  | - |  "));
    assert!(!is_separator_row("|"));
    assert!(!is_separator_row("||"));
    assert!(!is_separator_row("| --- |  | --- |"));
    assert!(!is_separator_row("---"));
    assert!(!is_separator_row(""));
}

#[test]
fn parse_cells_keeps_empty_cells() {
    assert_eq!(parse_cells("| a || b |"), vec!["a", "", "b"]);
    assert_eq!(parse_cells("a | b"), vec!["a", "b"]);
    assert_eq!(parse_cells(""), vec![""]);
}

#[test]
fn continuation_indent_by_line_kind() {
    assert_eq!(continuation_indent("- item"), "  ");
    assert_eq!(continuation_indent("  * item"), "    ");
    assert_eq!(continuation_indent("12. item"), "    ");
    assert_eq!(continuation_indent("> quote"), "> ");
    assert_eq!(continuation_indent("  > quote"), "  > ");
    assert_eq!(continuation_indent("   text"), "   ");
    assert_eq!(continuation_indent("text"), "");
    assert_eq!(continuation_indent("12345. item"), "");
}

#[test]
fn format_tables_exact_output() {
    let out = format_tables("| a | b |\n|---|---|\n| c | d |", 21);
    // two columns: overhead 7, available 14, natural 3 + 3, surplus 8
    assert_eq!(out, "| a       | b       |\n| ------- | ------- |\n| c       | d       |");
}

#[test]
fn format_tables_truncates_on_the_right() {
    let out = format_tables("| abcdefgh | ijklmnop |\n|---|---|", 13);
    // available 6 for a natural total of 16: 3 and 3
    assert_eq!(out, "| abc | ijk |\n| --- | --- |");
}

#[test]
fn hard_wrap_zero_width_is_identity() {
    assert_eq!(hard_wrap("a b c\n", 0), "a b c\n");
}

#[test]
fn hard_wrap_exact_output() {
    // the cut is at the last space at or before the width
    assert_eq!(hard_wrap("aaa bbb ccc", 7), "aaa bbb\nccc");
    assert_eq!(hard_wrap("aaa bbb ccc", 6), "aaa\nbbb\nccc");
    assert_eq!(hard_wrap("- aaa bbb ccc", 7), "- aaa\n  bbb\n  ccc");
    assert_eq!(hard_wrap("abcdefghij", 4), "abcd\nefgh\nij");
}

#[test]
fn hard_wrap_keeps_a_word_that_just_fills_the_width() {
    assert_eq!(hard_wrap("hello world", 5), "hello\nworld");
    assert_eq!(hard_wrap("ab cde fghij kl", 5), "ab\ncde\nfghij\nkl");
    // a longer word is cut at the width
    assert_eq!(hard_wrap("hello worlds", 5), "hello\nworld\ns");
}

#[test]
fn hard_wrap_keeps_line_endings() {
    assert_eq!(hard_wrap("abc\n", 10), "abc\n");
    assert_eq!(hard_wrap("abc\n\n\n", 10), "abc\n\n\n");
    assert_eq!(hard_wrap("\n", 10), "\n");
    assert_eq!(hard_wrap("abcde\r\nfg\r\n", 5), "abcde\r\nfg\r\n");
    assert_eq!(hard_wrap("aaa bbb ccc\nddd\n", 7), "aaa bbb\nccc\nddd\n");
}

#[test]
fn hard_wrap_bullet_item_continues_with_two_spaces() {
    let input = format!("- {}", "word ".repeat(30));
    let result = hard_wrap(&input, 30);
    let lines: Vec<&str> = result.lines().collect();
    assert!(lines.len() > 1);
    assert!(lines[0].starts_with("- "));
    for line in &lines[1..] {
        assert!(line.starts_with("  "), "got: '{}'", line);
    }
}

#[test]
fn hard_wrap_counts_characters_not_bytes() {
    // five two-byte characters fit a width of 5
    assert_eq!(hard_wrap("ééééé", 5), "ééééé");
    assert_eq!(hard_wrap("éééééé", 5), "ééééé\né");
}

#[test]
fn hard_wrap_skips_headings_and_fences() {
    let heading = format!("# {}", "word ".repeat(30));
    assert_eq!(hard_wrap(&heading, 20), heading.trim_end_matches('\n'));
    let fenced = format!("~~~\n{}\n~~~\n{}", "x ".repeat(30), "y");
    assert_eq!(hard_wrap(&fenced, 20), fenced);
}

#[test]
fn hard_wrap_leaves_the_carriage_return_at_the_end_of_the_line() {
    assert_eq!(hard_wrap("aaaa ccccc\r\n", 5), "aaaa\nccccc\r\n");
    assert_eq!(hard_wrap("aaaa bbbb cccc\r\nx\r\n", 9), "aaaa bbbb\ncccc\r\nx\r\n");
    assert_eq!(hard_wrap("- aaa bbb\r", 5), "- aaa\n  bbb\r");
    assert_eq!(hard_wrap("abcdefgh\r\n", 4), "abcd\nefgh\r\n");
}

#[test]
fn no_table_starts_beyond_the_last_line() {
    let lines: Vec<Vec<char>> =
        ["| a | b |", "|---|---|"].iter().map(|l| l.chars().collect()).collect();
    assert!(try_format_table(&lines, 0, 40).is_some());
    assert!(try_format_table(&lines, 1, 40).is_none());
    assert!(try_format_table(&lines, 2, 40).is_none());
    assert!(try_format_table(&lines, 3, 40).is_none());
    assert!(try_format_table(&lines, usize::MAX, 40).is_none());
}
