use marko::autocomplete::{
    analyze_line_for_continuation, auto_close_pair, should_skip_backtick_pair,
    should_skip_quote_pair, Continuation,
};

#[test]
fn test_unordered_dash_continuation() {
    assert_eq!(
        analyze_line_for_continuation("- item text"),
        Continuation::Continue("- ".to_string())
    );
}

#[test]
fn test_unordered_star_continuation() {
    assert_eq!(
        analyze_line_for_continuation("* item text"),
        Continuation::Continue("* ".to_string())
    );
}

#[test]
fn test_unordered_plus_continuation() {
    assert_eq!(
        analyze_line_for_continuation("+ item text"),
        Continuation::Continue("+ ".to_string())
    );
}

#[test]
fn test_ordered_list_continuation() {
    assert_eq!(
        analyze_line_for_continuation("3. item text"),
        Continuation::Continue("4. ".to_string())
    );
}

#[test]
fn test_ordered_list_increment() {
    assert_eq!(
        analyze_line_for_continuation("10. something"),
        Continuation::Continue("11. ".to_string())
    );
}

#[test]
fn test_task_list_continuation() {
    assert_eq!(
        analyze_line_for_continuation("- [ ] task"),
        Continuation::Continue("- [ ] ".to_string())
    );
}

#[test]
fn test_checked_task_continues_unchecked() {
    assert_eq!(
        analyze_line_for_continuation("- [x] done task"),
        Continuation::Continue("- [ ] ".to_string())
    );
}

#[test]
fn test_blockquote_continuation() {
    assert_eq!(
        analyze_line_for_continuation("> quote text"),
        Continuation::Continue("> ".to_string())
    );
}

#[test]
fn test_empty_dash_item_clears() {
    assert_eq!(
        analyze_line_for_continuation("- "),
        Continuation::ClearLine
    );
}

#[test]
fn test_empty_star_item_clears() {
    assert_eq!(
        analyze_line_for_continuation("* "),
        Continuation::ClearLine
    );
}

#[test]
fn test_empty_plus_item_clears() {
    assert_eq!(
        analyze_line_for_continuation("+ "),
        Continuation::ClearLine
    );
}

#[test]
fn test_empty_blockquote_clears() {
    assert_eq!(
        analyze_line_for_continuation("> "),
        Continuation::ClearLine
    );
}

#[test]
fn test_empty_ordered_clears() {
    assert_eq!(
        analyze_line_for_continuation("1. "),
        Continuation::ClearLine
    );
}

#[test]
fn test_plain_text_no_continuation() {
    assert_eq!(
        analyze_line_for_continuation("just some text"),
        Continuation::Nothing
    );
}

#[test]
fn test_indented_list_preserves_indent() {
    assert_eq!(
        analyze_line_for_continuation("  - nested item"),
        Continuation::Continue("  - ".to_string())
    );
}

#[test]
fn test_indented_ordered_list_preserves_indent() {
    assert_eq!(
        analyze_line_for_continuation("    1. nested ordered"),
        Continuation::Continue("    2. ".to_string())
    );
}

#[test]
fn test_empty_line_no_continuation() {
    assert_eq!(
        analyze_line_for_continuation(""),
        Continuation::Nothing
    );
}

#[test]
fn test_auto_close_pairs() {
    assert_eq!(auto_close_pair('('), Some(')'));
    assert_eq!(auto_close_pair('['), Some(']'));
    assert_eq!(auto_close_pair('{'), Some('}'));
    assert_eq!(auto_close_pair('`'), Some('`'));
    assert_eq!(auto_close_pair('"'), Some('"'));
    assert_eq!(auto_close_pair('\''), Some('\''));
    assert_eq!(auto_close_pair('a'), None);
}

#[test]
fn test_skip_backtick_after_backtick() {
    assert!(should_skip_backtick_pair(Some('`')));
    assert!(!should_skip_backtick_pair(Some('a')));
    assert!(!should_skip_backtick_pair(None));
}

#[test]
fn test_skip_quote_after_alphanumeric() {
    assert!(should_skip_quote_pair('\'', Some('n'))); // don't
    assert!(should_skip_quote_pair('"', Some('a')));
    assert!(!should_skip_quote_pair('\'', Some(' ')));
    assert!(!should_skip_quote_pair('\'', None));
    assert!(!should_skip_quote_pair('(', Some('a'))); // not a quote char
}

#[test]
fn ordered_item_without_text_after_the_dot_clears() {
    assert_eq!(analyze_line_for_continuation("7."), Continuation::ClearLine);
}

#[test]
fn quote_without_space_continues_with_marker_and_space() {
    assert_eq!(
        analyze_line_for_continuation(">quoted"),
        Continuation::Continue("> ".to_string())
    );
}

#[test]
fn bare_bullet_clears() {
    assert_eq!(analyze_line_for_continuation("-"), Continuation::ClearLine);
    assert_eq!(analyze_line_for_continuation("- [ ]"), Continuation::ClearLine);
    assert_eq!(analyze_line_for_continuation("- [x] "), Continuation::ClearLine);
}

#[test]
fn ordered_item_with_nine_carries_into_the_next_digit() {
    assert_eq!(
        analyze_line_for_continuation("99. x"),
        Continuation::Continue("100. ".to_string())
    );
}

#[test]
fn largest_item_number_still_counts_up() {
    assert_eq!(
        analyze_line_for_continuation("18446744073709551615. x"),
        Continuation::Continue("18446744073709551616. ".to_string())
    );
}

#[test]
fn number_too_large_is_no_list_item() {
    assert_eq!(
        analyze_line_for_continuation("18446744073709551616. x"),
        Continuation::Nothing
    );
}

#[test]
fn bullet_without_space_is_plain_text() {
    assert_eq!(analyze_line_for_continuation("-x"), Continuation::Nothing);
}
