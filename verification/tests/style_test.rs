use marko::style::{columns, Color, Line, Modifier, Span, Style};

fn span(text: &str) -> Span {
    Span { content: text.to_string(), style: Style::new() }
}

#[test]
fn width_counts_terminal_columns_not_characters() {
    assert_eq!(span("abc").width(), 3);
    assert_eq!(span("").width(), 0);
    // wide characters take two columns each, combining marks none
    assert_eq!(span("日本").width(), 4);
    assert_eq!(span("e\u{301}").width(), 1);
    let line = Line { spans: vec![span("ab"), span("日本"), span(" ")] };
    assert_eq!(line.width(), 7);
    assert_eq!(columns(&line.spans), 7);
    assert_eq!(columns(&Vec::new()), 0);
}

#[test]
fn styles_are_built_step_by_step() {
    let style = Style::new().fg(Color::Red).bg(Color::Black).add_modifier(Modifier::bold());
    assert_eq!(style.fg, Some(Color::Red));
    assert_eq!(style.bg, Some(Color::Black));
    assert!(style.add_modifier.contains(Modifier::bold()));
    assert!(!style.add_modifier.contains(Modifier::italic()));
    let both = Modifier::bold().union(Modifier::italic());
    assert!(both.contains(Modifier::bold()) && both.contains(Modifier::italic()));
    assert!(Modifier::empty().contains(Modifier::empty()));
    assert!(!Modifier::empty().contains(Modifier::underlined()));
    assert_eq!(Style::default(), Style::new());
}

#[test]
fn a_span_keeps_its_characters() {
    let chars: Vec<char> = "héllo".chars().collect();
    let s = Span::styled(&chars, Style::new().fg(Color::Blue));
    assert_eq!(s.content, "héllo");
    assert_eq!(s.chars(), chars);
    assert_eq!(Line::single(s.clone()).spans.len(), 1);
    assert_eq!(s.clone().style.fg, Some(Color::Blue));
}
