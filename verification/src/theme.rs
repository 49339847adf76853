//! The color palette and the ready-made styles built from it.

use vstd::prelude::*;
use crate::style::{Color, Modifier, Style};

verus! {

/// The background of the interface: the terminal's own.
pub const BG: Color = Color::Reset;

/// The foreground of the interface: the terminal's own.
pub const FG: Color = Color::Reset;

/// The color of borders and dividers.
pub const BORDER: Color = Color::DarkGray;

/// The background of the header and status bars.
pub const BAR_BG: Color = Color::Reset;

/// The foreground of the header and status bars.
pub const BAR_FG: Color = Color::Reset;

/// The color of line numbers and other dimmed text.
pub const LINE_NUMBER: Color = Color::DarkGray;

/// The background of selected text.
pub const SELECTION: Color = Color::Blue;

/// The color of headings and of the rules under them.
pub const HEADING: Color = Color::Blue;

/// The color of bold text.
pub const BOLD: Color = Color::Yellow;

/// The color of italic text.
pub const ITALIC: Color = Color::Cyan;

/// The color of links.
pub const LINK: Color = Color::Cyan;

/// The color of inline code and of code that is not highlighted.
pub const CODE: Color = Color::Red;

/// The background of code blocks.
pub open spec fn code_bg_color_value() -> Color {
    Color::Rgb(40, 42, 54)
}

/// The background of code blocks.
#[verifier::when_used_as_spec(code_bg_color_value)]
pub fn code_bg_color() -> (c: Color)
    ensures
        c == code_bg_color_value(),
{
    Color::Rgb(40, 42, 54)
}

/// The color of quoted text.
pub const QUOTE: Color = Color::Green;

/// The color of the bar in front of quoted lines.
pub open spec fn quote_border_color_value() -> Color {
    Color::Rgb(106, 190, 120)
}

/// The color of the bar in front of quoted lines.
#[verifier::when_used_as_spec(quote_border_color_value)]
pub fn quote_border_color() -> (c: Color)
    ensures
        c == quote_border_color_value(),
{
    Color::Rgb(106, 190, 120)
}

/// The gutter color of added lines.
pub const GIT_ADDED: Color = Color::Green;

/// The gutter color of the place where lines were removed.
pub const GIT_REMOVED: Color = Color::Red;

/// The gutter color of modified lines.
pub const GIT_MODIFIED: Color = Color::Yellow;

/// The color of what went well.
pub const SUCCESS: Color = Color::Green;

/// The color of warnings.
pub const WARNING: Color = Color::Yellow;

/// The color of errors.
pub const ERROR: Color = Color::Red;

/// White, for text on colored backgrounds.
pub const WHITE: Color = Color::White;

/// The color of the markers below the end of the text.
pub const TILDE: Color = Color::DarkGray;

/// The background of the tab of the mode that is shown.
pub const ACTIVE_TAB: Color = Color::Blue;

/// The foreground of the other tab.
pub const INACTIVE_TAB: Color = Color::Gray;

/// The style of the editor area.
pub fn editor_style() -> (s: Style)
    ensures
        s == Style::plain(),
{
    Style::new()
}

/// The style of the header bar.
pub fn header_style() -> (s: Style)
    ensures
        s == Style::plain(),
{
    Style::new()
}

/// The style of the status bar.
pub fn status_style() -> (s: Style)
    ensures
        s == Style::plain(),
{
    Style::new()
}

/// The style of line numbers.
pub fn line_number_style() -> (s: Style)
    ensures
        s == Style::plain().with_fg(LINE_NUMBER),
{
    Style::new().fg(LINE_NUMBER)
}

/// The style of the line that the cursor is on.
pub fn cursor_line_style() -> (s: Style)
    ensures
        s == Style::plain(),
{
    Style::new()
}

/// The style of headings: the heading color, bold.
pub open spec fn heading() -> Style {
    Style::plain().with_fg(HEADING).with_modifier(Modifier { bold: true, ..Modifier::none() })
}

/// The style of headings.
pub fn heading_style() -> (s: Style)
    ensures
        s == heading(),
{
    Style::new().fg(HEADING).add_modifier(Modifier::bold())
}

/// The style of bold text.
pub open spec fn bold() -> Style {
    Style::plain().with_fg(BOLD).with_modifier(Modifier { bold: true, ..Modifier::none() })
}

/// The style of bold text.
pub fn bold_style() -> (s: Style)
    ensures
        s == bold(),
{
    Style::new().fg(BOLD).add_modifier(Modifier::bold())
}

/// The style of italic text.
pub open spec fn italic() -> Style {
    Style::plain().with_fg(ITALIC).with_modifier(Modifier { italic: true, ..Modifier::none() })
}

/// The style of italic text.
pub fn italic_style() -> (s: Style)
    ensures
        s == italic(),
{
    Style::new().fg(ITALIC).add_modifier(Modifier::italic())
}

/// The style of inline code.
pub open spec fn code() -> Style {
    Style::plain().with_fg(CODE)
}

/// The style of inline code.
pub fn code_style() -> (s: Style)
    ensures
        s == code(),
{
    Style::new().fg(CODE)
}

/// The style of quoted text.
pub open spec fn quote() -> Style {
    Style::plain().with_fg(QUOTE).with_modifier(Modifier { italic: true, ..Modifier::none() })
}

/// The style of quoted text.
pub fn quote_style() -> (s: Style)
    ensures
        s == quote(),
{
    Style::new().fg(QUOTE).add_modifier(Modifier::italic())
}

/// The style of links: the link color, underlined.
pub open spec fn link() -> Style {
    Style::plain().with_fg(LINK).with_modifier(Modifier { underlined: true, ..Modifier::none() })
}

/// The style of links.
pub fn link_style() -> (s: Style)
    ensures
        s == link(),
{
    Style::new().fg(LINK).add_modifier(Modifier::underlined())
}

} // verus!
