use marko::style::{Color, Modifier, Style};
use marko::theme;

#[test]
fn test_base_colors() {
    assert_eq!(marko::theme::BG, Color::Reset);
    assert_eq!(marko::theme::FG, Color::Reset);
    assert_eq!(marko::theme::BORDER, Color::DarkGray);
}

#[test]
fn test_ui_colors() {
    assert_eq!(marko::theme::BAR_BG, Color::Reset);
    assert_eq!(marko::theme::BAR_FG, Color::Reset);
    assert_eq!(marko::theme::LINE_NUMBER, Color::DarkGray);
    assert_eq!(marko::theme::SELECTION, Color::Blue);
}

#[test]
fn test_markdown_syntax_colors() {
    assert_eq!(marko::theme::HEADING, Color::Blue);
    assert_eq!(marko::theme::BOLD, Color::Yellow);
    assert_eq!(marko::theme::ITALIC, Color::Cyan);
    assert_eq!(marko::theme::LINK, Color::Cyan);
    assert_eq!(marko::theme::CODE, Color::Red);
    assert_eq!(marko::theme::QUOTE, Color::Green);
}

#[test]
fn test_git_diff_colors() {
    assert_eq!(marko::theme::GIT_ADDED, Color::Green);
    assert_eq!(marko::theme::GIT_REMOVED, Color::Red);
    assert_eq!(marko::theme::GIT_MODIFIED, Color::Yellow);
}

#[test]
fn test_status_indicator_colors() {
    assert_eq!(marko::theme::SUCCESS, Color::Green);
    assert_eq!(marko::theme::WARNING, Color::Yellow);
    assert_eq!(marko::theme::ERROR, Color::Red);
}

#[test]
fn test_tab_colors() {
    assert_eq!(marko::theme::ACTIVE_TAB, Color::Blue);
    assert_eq!(marko::theme::INACTIVE_TAB, Color::Gray);
}

#[test]
fn test_misc_colors() {
    assert_eq!(marko::theme::WHITE, Color::White);
    assert_eq!(marko::theme::TILDE, Color::DarkGray);
}

#[test]
fn ready_made_styles() {
    assert_eq!(theme::editor_style(), Style::default());
    assert_eq!(theme::header_style(), Style::default());
    assert_eq!(theme::status_style(), Style::default());
    assert_eq!(theme::cursor_line_style(), Style::default());
    assert_eq!(theme::line_number_style(), Style::default().fg(Color::DarkGray));
    assert_eq!(
        theme::heading_style(),
        Style::default().fg(theme::HEADING).add_modifier(Modifier::bold())
    );
    assert_eq!(
        theme::bold_style(),
        Style::default().fg(Color::Yellow).add_modifier(Modifier::bold())
    );
    assert_eq!(
        theme::italic_style(),
        Style::default().fg(Color::Cyan).add_modifier(Modifier::italic())
    );
    assert_eq!(theme::code_style(), Style::default().fg(Color::Red));
    assert_eq!(
        theme::quote_style(),
        Style::default().fg(Color::Green).add_modifier(Modifier::italic())
    );
    assert_eq!(
        theme::link_style(),
        Style::default().fg(Color::Cyan).add_modifier(Modifier::underlined())
    );
    assert_eq!(theme::code_bg_color(), Color::Rgb(40, 42, 54));
    assert_eq!(theme::quote_border_color(), Color::Rgb(106, 190, 120));
}

#[test]
fn modifiers_combine() {
    let both = Modifier::bold().union(Modifier::italic());
    assert!(both.contains(Modifier::bold()));
    assert!(both.contains(Modifier::italic()));
    assert!(!both.contains(Modifier::underlined()));
    assert!(both.contains(Modifier::empty()));
    assert!(!Modifier::empty().contains(Modifier::crossed_out()));
    assert!(!Modifier::reversed().contains(both));
}
