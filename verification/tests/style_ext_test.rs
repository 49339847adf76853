use marko::style::{Color, Style};
use marko::style_ext::style_extensions;

fn contents(text: &str) -> Vec<String> {
    style_extensions(text, Style::default()).into_iter().map(|s| s.content).collect()
}

#[test]
fn plain_text_is_one_span() {
    assert_eq!(contents("plain"), vec!["plain"]);
    assert_eq!(contents(""), vec![""]);
}

#[test]
fn highlight_gets_its_own_style() {
    let spans = style_extensions("a ==hi== b", Style::default().fg(Color::Red));
    assert_eq!(spans.len(), 3);
    assert_eq!(spans[0].content, "a ");
    assert_eq!(spans[0].style, Style::default().fg(Color::Red));
    assert_eq!(spans[1].content, "hi");
    assert_eq!(spans[1].style, Style::default().bg(Color::Yellow).fg(Color::Black));
    assert_eq!(spans[2].content, " b");
}

#[test]
fn superscript_and_subscript_become_glyphs() {
    assert_eq!(contents("x^2^ y~n~"), vec!["x", "²", " y", "ₙ"]);
}

#[test]
fn delimiters_with_spaces_or_doubled_stay_text() {
    assert_eq!(contents("a ^b c^ d"), vec!["a ^b c^ d"]);
    assert_eq!(contents("a ~~b~~ c"), vec!["a ~~b~~ c"]);
    assert_eq!(contents("a ^^b^ c"), vec!["a ^", "b", " c"]);
    assert_eq!(contents("===="), vec!["===="]);
    assert_eq!(contents("~a~~"), vec!["~a~~"]);
}

#[test]
fn unknown_characters_are_kept_in_a_superscript() {
    assert_eq!(contents("^ab^"), vec!["ab"]);
}
