//! The header and the status bar: what they show, as spans and texts.

use vstd::prelude::*;
use crate::app_state::Mode;
use crate::style::{span_views, styled, Modifier, Span, SpanView, Style};
use crate::style_ext::lemma_span_views_push;
use crate::text::{append, chars_of, decimal, format_number, slice, string_of};
use crate::theme;

verus! {

/// What the status bar shows.
pub struct StatusInfo<'a> {
    pub line: usize,
    pub col: usize,
    pub message: &'a str,
    pub word_count: usize,
    pub modified: bool,
}

/// The style of text on the bars.
pub open spec fn bar_text_style() -> Style {
    Style::plain().with_fg(theme::WHITE).with_bg(theme::BAR_BG)
}

/// The style of the dot that marks unsaved changes.
pub open spec fn dot_style() -> Style {
    Style::plain().with_fg(theme::WARNING).with_bg(theme::BAR_BG)
}

/// The style of the character under the rename cursor.
pub open spec fn cursor_style() -> Style {
    Style::plain().with_modifier(Modifier { reversed: true, bold: true, ..Modifier::none() })
}

/// The dot that marks unsaved changes; nothing for a saved file.
pub open spec fn modified_dot(modified: bool) -> Seq<SpanView> {
    if modified {
        seq![styled(seq![' ', '•'], dot_style())]
    } else {
        Seq::empty()
    }
}

/// The file name in the header.
pub open spec fn filename_spans(filename: Seq<char>, modified: bool) -> Seq<SpanView> {
    seq![styled(seq![' ', ' '] + filename, Style::plain())] + modified_dot(modified)
}

/// The rename input in the header: the text before the cursor, the
/// character under it reversed (a space at the end of the text), and the
/// text after it.
pub open spec fn rename_spans(buf: Seq<char>, cursor: int, modified: bool) -> Seq<SpanView> {
    let at = if cursor < buf.len() {
        cursor
    } else {
        buf.len() as int
    };
    seq![styled(seq![' ', ' '], Style::plain())] + (if at > 0 {
        seq![styled(buf.subrange(0, at), bar_text_style())]
    } else {
        Seq::empty()
    }) + seq![
        styled(
            if at < buf.len() {
                seq![buf[at]]
            } else {
                seq![' ']
            },
            cursor_style(),
        ),
    ] + (if at + 1 < buf.len() {
        seq![styled(buf.subrange(at + 1, buf.len() as int), bar_text_style())]
    } else {
        Seq::empty()
    }) + modified_dot(modified)
}

/// The style of the tab of the mode that is shown.
pub open spec fn active_tab_style() -> Style {
    Style::plain().with_fg(theme::WHITE).with_bg(theme::ACTIVE_TAB).with_modifier(
        Modifier { bold: true, ..Modifier::none() },
    )
}

/// The style of the other tab.
pub open spec fn inactive_tab_style() -> Style {
    Style::plain().with_fg(theme::INACTIVE_TAB).with_bg(theme::BAR_BG)
}

/// The two mode tabs.
pub open spec fn tabs(mode: Mode) -> Seq<SpanView> {
    seq![
        styled(
            " EDITOR "@,
            if mode == Mode::Editor {
                active_tab_style()
            } else {
                inactive_tab_style()
            },
        ),
        styled(
            " PREVIEW "@,
            if mode == Mode::Preview {
                active_tab_style()
            } else {
                inactive_tab_style()
            },
        ),
    ]
}

fn push(spans: &mut Vec<Span>, content: &Vec<char>, style: Style)
    ensures
        span_views(final(spans)@) == span_views(old(spans)@).push(styled(content@, style)),
{
    let span = Span::styled(content, style);
    proof {
        lemma_span_views_push(spans@, span);
    }
    spans.push(span);
}

fn push_dot(spans: &mut Vec<Span>, modified: bool)
    ensures
        span_views(final(spans)@) == span_views(old(spans)@) + modified_dot(modified),
{
    if modified {
        let mut dot: Vec<char> = Vec::new();
        dot.push(' ');
        dot.push('•');
        assert(dot@ =~= seq![' ', '•']);
        push(spans, &dot, Style::new().fg(theme::WARNING).bg(theme::BAR_BG));
        assert(span_views(spans@) =~= span_views(old(spans)@) + modified_dot(modified));
    } else {
        assert(span_views(spans@) + Seq::<SpanView>::empty() =~= span_views(spans@));
    }
}

/// The file name for the header, with a dot where the file has unsaved
/// changes.
pub fn render_filename(filename: &str, modified: bool) -> (r: Vec<Span>)
    ensures
        span_views(r@) == filename_spans(filename@, modified),
{
    let mut spans: Vec<Span> = Vec::new();
    let mut t: Vec<char> = Vec::new();
    t.push(' ');
    t.push(' ');
    append(&mut t, &chars_of(filename));
    assert(t@ =~= seq![' ', ' '] + filename@);
    push(&mut spans, &t, theme::header_style());
    assert(span_views(spans@) =~= seq![styled(seq![' ', ' '] + filename@, Style::plain())]);
    push_dot(&mut spans, modified);
    spans
}

/// The rename input for the header.
pub fn render_rename_input(rename_buf: &str, rename_cursor: usize, modified: bool) -> (r: Vec<Span>)
    ensures
        span_views(r@) == rename_spans(rename_buf@, rename_cursor as int, modified),
{
    let buf = chars_of(rename_buf);
    let at = if rename_cursor < buf.len() {
        rename_cursor
    } else {
        buf.len()
    };
    let mut spans: Vec<Span> = Vec::new();
    let mut two: Vec<char> = Vec::new();
    two.push(' ');
    two.push(' ');
    assert(two@ =~= seq![' ', ' ']);
    push(&mut spans, &two, theme::header_style());
    assert(span_views(spans@) =~= seq![styled(seq![' ', ' '], Style::plain())]);
    let text_style = Style::new().fg(theme::WHITE).bg(theme::BAR_BG);
    if at > 0 {
        push(&mut spans, &slice(&buf, 0, at), text_style);
    }
    let mut under: Vec<char> = Vec::new();
    if at < buf.len() {
        under.push(buf[at]);
        assert(under@ =~= seq![buf@[at as int]]);
    } else {
        under.push(' ');
        assert(under@ =~= seq![' ']);
    }
    push(
        &mut spans,
        &under,
        Style::new().add_modifier(Modifier::reversed().union(Modifier::bold())),
    );
    if at < buf.len() && at + 1 < buf.len() {
        push(&mut spans, &slice(&buf, at + 1, buf.len()), text_style);
    }
    let ghost before = span_views(spans@);
    push_dot(&mut spans, modified);
    assert(span_views(spans@) =~= rename_spans(rename_buf@, rename_cursor as int, modified));
    spans
}

/// The mode tabs for the header.
pub fn render_tabs(mode: Mode) -> (r: Vec<Span>)
    ensures
        span_views(r@) == tabs(mode),
{
    let active = Style::new().fg(theme::WHITE).bg(theme::ACTIVE_TAB).add_modifier(Modifier::bold());
    let inactive = Style::new().fg(theme::INACTIVE_TAB).bg(theme::BAR_BG);
    let mut spans: Vec<Span> = Vec::new();
    push(
        &mut spans,
        &chars_of(" EDITOR "),
        match mode {
            Mode::Editor => active,
            Mode::Preview => inactive,
        },
    );
    push(
        &mut spans,
        &chars_of(" PREVIEW "),
        match mode {
            Mode::Preview => active,
            Mode::Editor => inactive,
        },
    );
    assert(span_views(spans@) =~= tabs(mode));
    spans
}

/// The cursor position as the status bar shows it.
pub open spec fn position_text(line: nat, col: nat) -> Seq<char> {
    "  Ln "@ + decimal(line) + ", Col "@ + decimal(col)
}

/// The word count and the save state as the status bar shows them.
pub open spec fn summary_text(word_count: nat, modified: bool) -> Seq<char> {
    decimal(word_count) + " words | "@ + (if modified {
        "Modified"@
    } else {
        "Saved"@
    }) + "  "@
}

/// The left part of the status bar.
pub fn status_left(info: &StatusInfo) -> (r: String)
    ensures
        r@ == position_text(info.line as nat, info.col as nat),
{
    let mut t = chars_of("  Ln ");
    append(&mut t, &format_number(info.line as u128));
    append(&mut t, &chars_of(", Col "));
    append(&mut t, &format_number(info.col as u128));
    string_of(&t)
}

/// The right part of the status bar.
pub fn status_right(info: &StatusInfo) -> (r: String)
    ensures
        r@ == summary_text(info.word_count as nat, info.modified),
{
    let mut t = format_number(info.word_count as u128);
    append(&mut t, &chars_of(" words | "));
    if info.modified {
        append(&mut t, &chars_of("Modified"));
    } else {
        append(&mut t, &chars_of("Saved"));
    }
    append(&mut t, &chars_of("  "));
    string_of(&t)
}

} // verus!
