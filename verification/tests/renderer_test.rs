use marko::code_highlight::Highlighter;
use marko::events::{parse_markdown, ColumnAlign, MdEvent};
use marko::renderer::{render_events, render_markdown, render_table, RenderedMarkdown};
use marko::style::{Color, Line, Modifier, Span, Style};
use marko::theme;

fn render(content: &str, width: usize) -> RenderedMarkdown {
    let hl = Highlighter::load();
    render_markdown(content, width, &hl)
}

fn line_text(line: &Line) -> String {
    line.spans.iter().map(|s| s.content.as_str()).collect()
}

fn all_text(doc: &RenderedMarkdown) -> String {
    doc.text
        .lines
        .iter()
        .flat_map(|l| l.spans.iter().map(|s| s.content.clone()))
        .collect::<Vec<_>>()
        .join("")
}

fn texts(doc: &RenderedMarkdown) -> Vec<String> {
    doc.text.lines.iter().map(line_text).collect()
}

#[test]
fn test_render_heading() {
    let text = render("# Hello", 80).text;
    assert!(!text.lines.is_empty());
    let has_heading = text.lines.iter().any(|line| line_text(line).contains("# Hello"));
    assert!(has_heading, "Should contain '# Hello' heading");
}

#[test]
fn test_render_bold() {
    let text = render("**bold**", 80).text;
    assert!(!text.lines.is_empty());
    let first_line = &text.lines[0];
    let has_bold = first_line
        .spans
        .iter()
        .any(|s| s.style.add_modifier.contains(Modifier::bold()) && s.content.contains("bold"));
    assert!(has_bold);
}

#[test]
fn test_render_italic() {
    let text = render("*italic*", 80).text;
    assert!(!text.lines.is_empty());
    let first_line = &text.lines[0];
    let has_italic = first_line
        .spans
        .iter()
        .any(|s| s.style.add_modifier.contains(Modifier::italic()) && s.content.contains("italic"));
    assert!(has_italic);
}

#[test]
fn test_render_inline_code() {
    let text = render("`code`", 80).text;
    assert!(!text.lines.is_empty());
    let first_line = &text.lines[0];
    let has_code = first_line
        .spans
        .iter()
        .any(|s| s.style.fg == Some(theme::CODE) && s.content.contains("code"));
    assert!(has_code);
}

#[test]
fn test_render_rule() {
    let text = render("---", 80).text;
    let has_rule = text
        .lines
        .iter()
        .any(|line| line.spans.iter().any(|s| s.content.contains("─")));
    assert!(has_rule);
}

#[test]
fn test_render_list() {
    let text = render("- item one\n- item two", 80).text;
    let has_bullet = text
        .lines
        .iter()
        .any(|line| line.spans.iter().any(|s| s.content.contains("•")));
    assert!(has_bullet);
}

#[test]
fn test_render_ordered_list() {
    let doc = render("1. first\n2. second\n3. third", 80);
    let all_text = all_text(&doc);
    assert!(all_text.contains("1."), "Should contain '1.' but got: {}", all_text);
    assert!(all_text.contains("2."), "Should contain '2.' but got: {}", all_text);
    assert!(all_text.contains("3."), "Should contain '3.' but got: {}", all_text);
}

#[test]
fn test_render_ordered_list_no_bullet() {
    let doc = render("1. first\n2. second", 80);
    let all_text = all_text(&doc);
    assert!(!all_text.contains("•"), "Ordered list should not contain '•' but got: {}", all_text);
}

#[test]
fn test_render_table() {
    let doc = render("| A | B |\n|---|---|\n| 1 | 2 |", 40);
    let all_text = all_text(&doc);
    assert!(all_text.contains("│"), "Table should contain │ borders but got: {}", all_text);
    assert!(all_text.contains("A"), "Table should contain cell 'A'");
    assert!(all_text.contains("B"), "Table should contain cell 'B'");
    assert!(all_text.contains("1"), "Table should contain cell '1'");
    assert!(all_text.contains("2"), "Table should contain cell '2'");
}

#[test]
fn test_render_table_separator() {
    let doc = render("| A | B |\n|---|---|\n| 1 | 2 |", 40);
    let all_text = all_text(&doc);
    assert!(all_text.contains("─"), "Table should have ─ separator");
    assert!(all_text.contains("├"), "Table should have ├ corner");
}

#[test]
fn test_render_table_shrinks_to_fit_narrow_width() {
    let md = "| Long Header One | Long Header Two |\n|---|---|\n| cell content a | cell content b |";
    let narrow_width = 30;
    let text = render(md, narrow_width).text;
    for line in &text.lines {
        let line_width: usize = line.spans.iter().map(|s| s.width()).sum();
        assert!(
            line_width <= narrow_width,
            "Table line width {} exceeds available width {}: {:?}",
            line_width,
            narrow_width,
            line.spans.iter().map(|s| s.content.as_str()).collect::<Vec<_>>()
        );
    }
}

#[test]
fn test_render_rule_fills_width() {
    let text = render("---", 50).text;
    let rule_line = text
        .lines
        .iter()
        .find(|line| line.spans.iter().any(|s| s.content.contains("─")));
    assert!(rule_line.is_some(), "Should have a rule line");
    let rule_content = line_text(rule_line.unwrap());
    assert_eq!(rule_content.chars().count(), 50, "Rule should fill available width");
}

#[test]
fn test_render_strikethrough() {
    let text = render("~~struck~~", 80).text;
    assert!(!text.lines.is_empty());
    let has_strikethrough = text.lines.iter().any(|line| {
        line.spans.iter().any(|s| {
            s.style.add_modifier.contains(Modifier::crossed_out()) && s.content.contains("struck")
        })
    });
    assert!(has_strikethrough, "Should render strikethrough text");
}

#[test]
fn heading_is_followed_by_a_heavy_rule_and_a_blank_line() {
    let doc = render("# Hello", 80);
    let lines = texts(&doc);
    let at = lines.iter().position(|l| l.contains("# Hello")).unwrap();
    assert_eq!(lines[at], "# Hello");
    assert_eq!(lines[at + 1], "━".repeat(80));
    assert_eq!(lines[at + 2], "");
    // two blank lines come before a first-level heading, less the one that
    // the start of the document counts for
    assert_eq!(lines, vec!["", "# Hello", &"━".repeat(80), ""]);
}

#[test]
fn second_level_heading_gets_a_light_rule() {
    let doc = render("text\n\n## Sub", 20);
    assert_eq!(texts(&doc), vec!["text", "", "## Sub", &"─".repeat(20), ""]);
}

#[test]
fn third_level_heading_gets_no_rule() {
    let doc = render("### Deep", 20);
    assert_eq!(texts(&doc), vec!["### Deep", ""]);
}

#[test]
fn table_takes_three_lines_within_the_width() {
    let doc = render("| A | B |\n|---|---|\n| 1 | 2 |", 40);
    let lines = texts(&doc);
    // header, rule, one body row
    assert_eq!(lines.len(), 3);
    for line in &doc.text.lines {
        assert!(line.width() <= 40);
    }
    let joined = lines.concat();
    for cell in ["A", "B", "1", "2"] {
        assert!(joined.contains(cell));
    }
    // overhead 7, available 33, natural 3 + 3: the first column gets the
    // rounded half of the surplus of 27, the last one the rest
    assert_eq!(lines[0], format!("│ A{} │ B{} │", " ".repeat(16), " ".repeat(15)));
    assert_eq!(lines[1], format!("├{}┼{}┤", "─".repeat(19), "─".repeat(18)));
}

#[test]
fn resizing_changes_column_widths_but_not_the_row_count() {
    let md = "| A | B |\n|---|---|\n| 1 | 2 |\n| 3 | 4 |";
    let narrow = render(md, 20);
    let wide = render(md, 60);
    assert_eq!(narrow.text.lines.len(), wide.text.lines.len());
    assert_ne!(narrow.text.lines[0].width(), wide.text.lines[0].width());
    assert_eq!(narrow.text.lines[0].width(), 20);
    assert_eq!(wide.text.lines[0].width(), 60);
}

#[test]
fn layout_is_the_same_every_time() {
    let md = "# T\n\ntext **b** [l](http://x)\n\n```rust\nfn f() {}\n```\n\n![a](p/q.png)\n";
    let a = render(md, 40);
    let b = render(md, 40);
    assert_eq!(format!("{:?}", a), format!("{:?}", b));
}

#[test]
fn links_are_listed_in_document_order() {
    let doc = render("[one](http://a) and [two](http://b)", 80);
    assert_eq!(doc.link_urls, vec!["http://a", "http://b"]);
    let lines = texts(&doc);
    assert_eq!(lines[0], "one (http://a) and two (http://b)");
    let link = doc.text.lines[0].spans.iter().find(|s| s.content == "one").unwrap();
    assert_eq!(link.style.fg, Some(theme::LINK));
    assert!(link.style.add_modifier.underlined);
}

#[test]
fn image_placeholder_is_fifteen_lines_and_registered() {
    let doc = render("![alt text](dir/pic.png)", 80);
    assert_eq!(doc.image_infos.len(), 1);
    let info = &doc.image_infos[0];
    assert_eq!(info.url, "dir/pic.png");
    assert_eq!(info.start_line, 0);
    assert_eq!(info.line_count, 15);
    let lines = texts(&doc);
    assert_eq!(lines[0], format!("╭─{}─╮", "─".repeat(10)));
    assert_eq!(lines[1], "│ alt text   │");
    assert_eq!(lines[2], "│ pic.png    │");
    assert_eq!(lines[3], format!("╰─{}─╯", "─".repeat(10)));
    for k in 4..15 {
        assert_eq!(lines[k], "");
    }
}

#[test]
fn image_without_alt_text_shows_the_word_image() {
    let doc = render("![](x.png)", 80);
    assert_eq!(texts(&doc)[1], "│ Image    │");
}

#[test]
fn block_quote_lines_start_with_a_bar() {
    let doc = render("> quoted\n> > deeper", 80);
    let lines = texts(&doc);
    assert_eq!(lines[0], "│ quoted");
    assert!(lines.iter().any(|l| l == "│ │ deeper"));
    let bar = &doc.text.lines[0].spans[0];
    assert_eq!(bar.style.fg, Some(theme::quote_border_color()));
}

#[test]
fn nested_list_items_are_indented_and_numbered() {
    let doc = render("3. a\n4. b\n   - c\n", 80);
    let lines = texts(&doc);
    assert_eq!(lines[0], "3. a");
    assert_eq!(lines[1], "4. b");
    assert_eq!(lines[2], "  • c");
}

#[test]
fn task_markers_render_with_their_own_style() {
    let doc = render("- [x] done\n- [ ] open", 80);
    let lines = texts(&doc);
    assert_eq!(lines[0], "• [x] done");
    assert_eq!(lines[1], "• [ ] open");
    let checked = doc.text.lines[0].spans.iter().find(|s| s.content == "[x] ").unwrap();
    assert_eq!(checked.style.fg, Some(theme::SUCCESS));
    let open = doc.text.lines[1].spans.iter().find(|s| s.content == "[ ] ").unwrap();
    assert_eq!(open.style.fg, Some(theme::FG));
}

#[test]
fn nested_emphasis_accumulates_and_inner_color_wins() {
    let doc = render("**bold *both***", 80);
    let both = doc.text.lines[0].spans.iter().find(|s| s.content == "both").unwrap();
    assert!(both.style.add_modifier.bold);
    assert!(both.style.add_modifier.italic);
    assert_eq!(both.style.fg, Some(theme::ITALIC));
}

#[test]
fn inline_math_converts_to_unicode() {
    let doc = render("$x^2 + \\alpha$", 80);
    assert_eq!(texts(&doc)[0], "x² + α");
}

#[test]
fn inline_math_falls_back_to_parentheses() {
    let doc = render("$x^{ab}$", 80);
    assert_eq!(texts(&doc)[0], "x^(ab)");
}

#[test]
fn display_math_is_indented() {
    let doc = render("$$\\frac{a}{b}$$", 80);
    assert!(texts(&doc).iter().any(|l| l == "  a⁄b"));
}

#[test]
fn long_text_wraps_at_the_last_word_before_the_width() {
    let doc = render("aaa bbb ccc ddd", 8);
    assert_eq!(texts(&doc), vec!["aaa bbb ", "ccc ddd", ""]);
}

#[test]
fn code_block_is_boxed_with_its_language() {
    let doc = render("```rust\nlet x = 1;\n```", 20);
    let lines = texts(&doc);
    assert_eq!(lines[0], format!("┌─ rust {}┐", "─".repeat(11)));
    assert_eq!(lines[1], format!("  let x = 1;{}", " ".repeat(8)));
    assert_eq!(lines[2], format!("└{}┘", "─".repeat(18)));
    assert_eq!(lines[3], "");
    let ground = &doc.text.lines[1].spans[0];
    assert_eq!(ground.style.bg, Some(theme::code_bg_color()));
}

#[test]
fn typescript_is_colored_through_its_alias() {
    let doc = render("```typescript\nconst a = 5;\n```", 80);
    let colored = doc.text.lines.iter().any(|line| {
        line.spans.iter().any(|s| {
            s.content == "const"
                && matches!(s.style.fg, Some(Color::Rgb(r, g, b)) if !(r == g && g == b))
        })
    });
    assert!(colored);
}

#[test]
fn horizontal_rule_has_end_caps() {
    let doc = render("---", 5);
    assert_eq!(texts(&doc)[0], "╶───╴");
    let narrow = render("---", 2);
    assert_eq!(texts(&narrow)[0], "──");
}

#[test]
fn highlight_and_superscript_extensions() {
    let doc = render("a ==hi== b^2^", 80);
    assert_eq!(texts(&doc)[0], "a hi b²");
    let hi = doc.text.lines[0].spans.iter().find(|s| s.content == "hi").unwrap();
    assert_eq!(hi.style.bg, Some(Color::Yellow));
    assert_eq!(hi.style.fg, Some(Color::Black));
}

#[test]
fn parser_events_reach_the_layout_as_library_events() {
    let events = parse_markdown("# T");
    assert_eq!(events.len(), 3);
    assert!(matches!(events[0], MdEvent::StartHeading(1)));
    assert!(matches!(&events[1], MdEvent::Text(t) if t == "T"));
    assert!(matches!(events[2], MdEvent::EndHeading(1)));
}

#[test]
fn render_events_lays_out_hand_made_events() {
    let hl = Highlighter::load();
    let events = vec![
        MdEvent::StartParagraph,
        MdEvent::Text("hello".to_string()),
        MdEvent::SoftBreak,
        MdEvent::Code("x".to_string()),
        MdEvent::EndParagraph,
    ];
    let doc = render_events(&events, 80, &hl);
    assert_eq!(texts(&doc), vec!["hello", " x ", ""]);
}

#[test]
fn render_table_aligns_cells() {
    let cell = |t: &str| vec![Span { content: t.to_string(), style: Style::default() }];
    let rows = vec![vec![cell("ab"), cell("cd"), cell("ef")]];
    let aligns = vec![ColumnAlign::Right, ColumnAlign::Center, ColumnAlign::Left];
    let mut lines: Vec<Line> = Vec::new();
    // three columns: overhead 10, available 15, natural 3 each, surplus 6
    render_table(&rows, 0, &aligns, 25, &mut lines, &Vec::new());
    assert_eq!(lines.len(), 1);
    assert_eq!(line_text(&lines[0]), "│    ab │  cd   │ ef    │");
}

#[test]
fn render_table_cuts_cells_that_are_too_wide() {
    let cell = |t: &str| vec![Span { content: t.to_string(), style: Style::default() }];
    let rows = vec![vec![cell("abcdefgh"), cell("ijklmnop")]];
    let mut lines: Vec<Line> = Vec::new();
    render_table(&rows, 1, &Vec::new(), 13, &mut lines, &Vec::new());
    assert_eq!(lines.len(), 2);
    assert_eq!(line_text(&lines[0]), "│ abc │ ijk │");
    assert_eq!(line_text(&lines[1]), "├─────┼─────┤");
}

#[test]
fn wide_characters_take_two_columns() {
    let span = Span { content: "日本".to_string(), style: Style::default() };
    assert_eq!(span.width(), 4);
    let line = Line { spans: vec![span.clone(), Span { content: "ab".to_string(), style: Style::default() }] };
    assert_eq!(line.width(), 6);
    // the table counts columns, not characters
    let rows = vec![vec![vec![span]]];
    let mut lines: Vec<Line> = Vec::new();
    render_table(&rows, 0, &Vec::new(), 8, &mut lines, &Vec::new());
    assert_eq!(line_text(&lines[0]), "│ 日本 │");
}

#[test]
fn table_rows_are_as_wide_as_the_line() {
    let table = "| a | b | c | d | e | f | g |\n|---|---|---|---|---|---|---|\n| 1 | 2 | 3 | 4 | 5 | 6 | 7 |";
    for width in [43, 44, 47, 50, 80] {
        let doc = render(table, width);
        assert_eq!(doc.text.lines.len(), 3);
        for line in &doc.text.lines {
            assert_eq!(line.width(), width, "{:?}", line_text(line));
        }
    }
}
