use marko::app_state::Mode;
use marko::chrome::{
    render_filename, render_rename_input, render_tabs, status_left, status_right, StatusInfo,
};
use marko::style::{Color, Modifier, Span, Style};

fn pairs(spans: &[Span]) -> Vec<(&str, Style)> {
    spans.iter().map(|s| (s.content.as_str(), s.style)).collect()
}

fn bar_text() -> Style {
    Style::default().fg(Color::White).bg(Color::Reset)
}

fn dot() -> Style {
    Style::default().fg(Color::Yellow).bg(Color::Reset)
}

fn cursor() -> Style {
    Style::default().add_modifier(Modifier::reversed().union(Modifier::bold()))
}

#[test]
fn filename_with_and_without_the_dot() {
    assert_eq!(pairs(&render_filename("notes.md", false)), vec![("  notes.md", Style::default())]);
    assert_eq!(
        pairs(&render_filename("notes.md", true)),
        vec![("  notes.md", Style::default()), (" •", dot())]
    );
}

#[test]
fn rename_input_shows_the_cursor() {
    assert_eq!(
        pairs(&render_rename_input("name", 2, false)),
        vec![("  ", Style::default()), ("na", bar_text()), ("m", cursor()), ("e", bar_text())]
    );
    assert_eq!(
        pairs(&render_rename_input("name", 4, true)),
        vec![("  ", Style::default()), ("name", bar_text()), (" ", cursor()), (" •", dot())]
    );
    assert_eq!(
        pairs(&render_rename_input("name", 0, false)),
        vec![("  ", Style::default()), ("n", cursor()), ("ame", bar_text())]
    );
    assert_eq!(
        pairs(&render_rename_input("name", 3, false)),
        vec![("  ", Style::default()), ("nam", bar_text()), ("e", cursor())]
    );
    assert_eq!(
        pairs(&render_rename_input("", 0, false)),
        vec![("  ", Style::default()), (" ", cursor())]
    );
    assert_eq!(
        pairs(&render_rename_input("né", 1, false)),
        vec![("  ", Style::default()), ("n", bar_text()), ("é", cursor())]
    );
}

#[test]
fn tabs_mark_the_mode() {
    let active = Style::default().fg(Color::White).bg(Color::Blue).add_modifier(Modifier::bold());
    let inactive = Style::default().fg(Color::Gray).bg(Color::Reset);
    assert_eq!(
        pairs(&render_tabs(Mode::Editor)),
        vec![(" EDITOR ", active), (" PREVIEW ", inactive)]
    );
    assert_eq!(
        pairs(&render_tabs(Mode::Preview)),
        vec![(" EDITOR ", inactive), (" PREVIEW ", active)]
    );
    let width: usize = render_tabs(Mode::Editor).iter().map(|s| s.width()).sum();
    assert_eq!(width, 17);
}

#[test]
fn status_texts() {
    let info = StatusInfo { line: 12, col: 0, message: "", word_count: 345, modified: true };
    assert_eq!(status_left(&info), "  Ln 12, Col 0");
    assert_eq!(status_right(&info), "345 words | Modified  ");
    let saved = StatusInfo { line: 1, col: 7, message: "Saved", word_count: 0, modified: false };
    assert_eq!(status_left(&saved), "  Ln 1, Col 7");
    assert_eq!(status_right(&saved), "0 words | Saved  ");
}
