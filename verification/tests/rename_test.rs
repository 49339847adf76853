use marko::app_state::RenameCommand;
use marko::rename::{RenameDecision, RenameInput};

fn state(input: &RenameInput) -> (String, usize) {
    (input.text(), input.cursor)
}

#[test]
fn starts_with_the_cursor_at_the_end() {
    assert_eq!(state(&RenameInput::start("notes.md")), ("notes.md".to_string(), 8));
}

#[test]
fn typing_inserts_at_the_cursor() {
    let mut input = RenameInput::start("ac");
    input.left();
    input.type_char('b');
    assert_eq!(state(&input), ("abc".to_string(), 2));
    input.type_char('/');
    input.type_char('\\');
    assert_eq!(state(&input), ("abc".to_string(), 2));
}

#[test]
fn paste_leaves_out_line_breaks() {
    let mut input = RenameInput::start("ad");
    input.left();
    input.paste("b\r\nc/");
    assert_eq!(state(&input), ("abc/d".to_string(), 4));
}

#[test]
fn deleting() {
    let mut input = RenameInput::start("abc");
    input.backspace();
    assert_eq!(state(&input), ("ab".to_string(), 2));
    input.delete();
    assert_eq!(state(&input), ("ab".to_string(), 2));
    input.home();
    input.backspace();
    assert_eq!(state(&input), ("ab".to_string(), 0));
    input.delete();
    assert_eq!(state(&input), ("b".to_string(), 0));
}

#[test]
fn moving() {
    let mut input = RenameInput::start("ab");
    input.right();
    assert_eq!(input.cursor, 2);
    input.left();
    input.left();
    input.left();
    assert_eq!(input.cursor, 0);
    input.right();
    assert_eq!(input.cursor, 1);
    input.end();
    assert_eq!(input.cursor, 2);
    input.home();
    assert_eq!(input.cursor, 0);
}

#[test]
fn a_cursor_beyond_the_text_edits_at_its_end() {
    let mut input = RenameInput { buf: vec!['a'], cursor: 9 };
    input.type_char('b');
    assert_eq!(state(&input), ("ab".to_string(), 2));
    let mut input = RenameInput { buf: vec!['a'], cursor: 9 };
    input.backspace();
    assert_eq!(state(&input), ("a".to_string(), 9));
}

#[test]
fn the_name_counts_without_the_whitespace_around_it() {
    let decided = |text: &str, current: &str| RenameInput::start(text).decide(current);
    assert!(matches!(decided("  new.md ", "old.md"), RenameDecision::Rename(n) if n == "new.md"));
    assert!(matches!(decided("   ", "old.md"), RenameDecision::Empty));
    assert!(matches!(decided("", ""), RenameDecision::Empty));
    assert!(matches!(decided(" old.md", "old.md"), RenameDecision::Unchanged));
    assert!(matches!(decided("Old.md", "old.md"), RenameDecision::Rename(n) if n == "Old.md"));
}

#[test]
fn keys_edit_the_input() {
    let mut input = RenameInput::start("abc");
    input.apply(RenameCommand::Left);
    input.apply(RenameCommand::Backspace);
    assert_eq!(state(&input), ("ac".to_string(), 1));
    input.apply(RenameCommand::Type('x'));
    input.apply(RenameCommand::Type('/'));
    assert_eq!(state(&input), ("axc".to_string(), 2));
    input.apply(RenameCommand::Delete);
    assert_eq!(state(&input), ("ax".to_string(), 2));
    input.apply(RenameCommand::Home);
    assert_eq!(state(&input), ("ax".to_string(), 0));
    input.apply(RenameCommand::Right);
    input.apply(RenameCommand::Nothing);
    input.apply(RenameCommand::Confirm);
    assert_eq!(state(&input), ("ax".to_string(), 1));
    input.apply(RenameCommand::End);
    assert_eq!(state(&input), ("ax".to_string(), 2));
    input.apply(RenameCommand::Cancel);
    assert_eq!(state(&input), (String::new(), 0));
}
