//! Styled text: colors, modifiers, spans and lines, as plain values.

use vstd::prelude::*;

verus! {

/// A terminal color.
#[derive(Clone, Copy, Debug, PartialEq, Eq, Structural)]
pub enum Color {
    Reset,
    Black,
    Red,
    Green,
    Yellow,
    Blue,
    Magenta,
    Cyan,
    Gray,
    DarkGray,
    LightRed,
    LightGreen,
    LightYellow,
    LightBlue,
    LightMagenta,
    LightCyan,
    White,
    Rgb(u8, u8, u8),
    Indexed(u8),
}

/// A set of text attributes.
#[derive(Clone, Copy, Debug, PartialEq, Eq, Structural)]
pub struct Modifier {
    pub bold: bool,
    pub italic: bool,
    pub underlined: bool,
    pub reversed: bool,
    pub crossed_out: bool,
}

impl Modifier {
    /// The empty set of attributes.
    pub open spec fn none() -> Modifier {
        Modifier {
            bold: false,
            italic: false,
            underlined: false,
            reversed: false,
            crossed_out: false,
        }
    }

    /// The attributes of either set.
    pub open spec fn joined(self, other: Modifier) -> Modifier {
        Modifier {
            bold: self.bold || other.bold,
            italic: self.italic || other.italic,
            underlined: self.underlined || other.underlined,
            reversed: self.reversed || other.reversed,
            crossed_out: self.crossed_out || other.crossed_out,
        }
    }

    /// Whether every attribute of `other` is set in `self`.
    pub open spec fn includes(self, other: Modifier) -> bool {
        &&& other.bold ==> self.bold
        &&& other.italic ==> self.italic
        &&& other.underlined ==> self.underlined
        &&& other.reversed ==> self.reversed
        &&& other.crossed_out ==> self.crossed_out
    }

    /// The empty set of attributes.
    pub fn empty() -> (m: Modifier)
        ensures
            m == Modifier::none(),
    {
        Modifier {
            bold: false,
            italic: false,
            underlined: false,
            reversed: false,
            crossed_out: false,
        }
    }

    /// Bold alone.
    pub fn bold() -> (m: Modifier)
        ensures
            m == (Modifier { bold: true, ..Modifier::none() }),
    {
        Modifier { bold: true, italic: false, underlined: false, reversed: false, crossed_out: false }
    }

    /// Italic alone.
    pub fn italic() -> (m: Modifier)
        ensures
            m == (Modifier { italic: true, ..Modifier::none() }),
    {
        Modifier { bold: false, italic: true, underlined: false, reversed: false, crossed_out: false }
    }

    /// Underlined alone.
    pub fn underlined() -> (m: Modifier)
        ensures
            m == (Modifier { underlined: true, ..Modifier::none() }),
    {
        Modifier { bold: false, italic: false, underlined: true, reversed: false, crossed_out: false }
    }

    /// Reversed alone.
    pub fn reversed() -> (m: Modifier)
        ensures
            m == (Modifier { reversed: true, ..Modifier::none() }),
    {
        Modifier { bold: false, italic: false, underlined: false, reversed: true, crossed_out: false }
    }

    /// Crossed out alone.
    pub fn crossed_out() -> (m: Modifier)
        ensures
            m == (Modifier { crossed_out: true, ..Modifier::none() }),
    {
        Modifier { bold: false, italic: false, underlined: false, reversed: false, crossed_out: true }
    }

    /// The attributes of either set.
    pub fn union(self, other: Modifier) -> (m: Modifier)
        ensures
            m == self.joined(other),
    {
        Modifier {
            bold: self.bold || other.bold,
            italic: self.italic || other.italic,
            underlined: self.underlined || other.underlined,
            reversed: self.reversed || other.reversed,
            crossed_out: self.crossed_out || other.crossed_out,
        }
    }

    /// Whether every attribute of `other` is set in `self`.
    pub fn contains(self, other: Modifier) -> (b: bool)
        ensures
            b == self.includes(other),
    {
        (!other.bold || self.bold) && (!other.italic || self.italic) && (!other.underlined
            || self.underlined) && (!other.reversed || self.reversed) && (!other.crossed_out
            || self.crossed_out)
    }
}

/// Foreground, background and attributes of a run of text.
#[derive(Clone, Copy, Debug, PartialEq, Eq, Structural)]
pub struct Style {
    pub fg: Option<Color>,
    pub bg: Option<Color>,
    pub add_modifier: Modifier,
}

impl Style {
    /// The style that sets nothing.
    pub open spec fn plain() -> Style {
        Style { fg: None, bg: None, add_modifier: Modifier::none() }
    }

    /// The style with the foreground `c`.
    pub open spec fn with_fg(self, c: Color) -> Style {
        Style { fg: Some(c), ..self }
    }

    /// The style with the background `c`.
    pub open spec fn with_bg(self, c: Color) -> Style {
        Style { bg: Some(c), ..self }
    }

    /// The style with the attributes of `m` added.
    pub open spec fn with_modifier(self, m: Modifier) -> Style {
        Style { add_modifier: self.add_modifier.joined(m), ..self }
    }

    /// The style that sets nothing.
    pub fn new() -> (s: Style)
        ensures
            s == Style::plain(),
    {
        Style { fg: None, bg: None, add_modifier: Modifier::empty() }
    }

    /// Sets the foreground.
    pub fn fg(self, c: Color) -> (s: Style)
        ensures
            s == self.with_fg(c),
    {
        Style { fg: Some(c), bg: self.bg, add_modifier: self.add_modifier }
    }

    /// Sets the background.
    pub fn bg(self, c: Color) -> (s: Style)
        ensures
            s == self.with_bg(c),
    {
        Style { fg: self.fg, bg: Some(c), add_modifier: self.add_modifier }
    }

    /// Adds attributes.
    pub fn add_modifier(self, m: Modifier) -> (s: Style)
        ensures
            s == self.with_modifier(m),
    {
        Style { fg: self.fg, bg: self.bg, add_modifier: self.add_modifier.union(m) }
    }
}

impl Default for Style {
    fn default() -> (s: Style)
        ensures
            s == Style::plain(),
    {
        Style::new()
    }
}

/// A run of text in one style.
#[derive(Debug)]
pub struct Span {
    pub content: String,
    pub style: Style,
}

/// What a span holds: its characters and its style.
pub struct SpanView {
    pub content: Seq<char>,
    pub style: Style,
}

impl View for Span {
    type V = SpanView;

    open spec fn view(&self) -> SpanView {
        SpanView { content: self.content@, style: self.style }
    }
}

impl Clone for Span {
    fn clone(&self) -> (r: Span)
        ensures
            r@ == self@,
    {
        Span { content: self.content.clone(), style: self.style }
    }
}

/// The views of a list of spans.
pub open spec fn span_views(v: Seq<Span>) -> Seq<SpanView> {
    Seq::new(v.len(), |i: int| v[i]@)
}

/// One line of styled text.
#[derive(Debug)]
pub struct Line {
    pub spans: Vec<Span>,
}

impl View for Line {
    type V = Seq<SpanView>;

    open spec fn view(&self) -> Seq<SpanView> {
        span_views(self.spans@)
    }
}

/// The views of a list of lines.
pub open spec fn line_views(v: Seq<Line>) -> Seq<Seq<SpanView>> {
    Seq::new(v.len(), |i: int| v[i]@)
}

/// A span of `content` in `style`.
pub open spec fn styled(content: Seq<char>, style: Style) -> SpanView {
    SpanView { content, style }
}

impl Span {
    /// A span of `content` in `style`.
    pub fn styled(content: &Vec<char>, style: Style) -> (s: Span)
        ensures
            s@ == styled(content@, style),
    {
        Span { content: crate::text::string_of(content), style }
    }

    /// The characters of the span, in order.
    pub fn chars(&self) -> (v: Vec<char>)
        ensures
            v@ == self@.content,
    {
        crate::text::chars_of(self.content.as_str())
    }
}

/// The columns that a terminal gives to the text `s`.
pub uninterp spec fn display_width(s: Seq<char>) -> nat;

/// `ratatui::text::Span::width`: the number of terminal columns that the
/// span's content takes, which depends on the content alone.
#[verifier::external_body]
pub(crate) fn text_width(s: &str) -> (w: usize)
    ensures
        w == display_width(s@),
{
    ratatui::text::Span::raw(s).width()
}

impl Span {
    /// The columns that the span takes on a terminal.
    pub fn width(&self) -> (w: usize)
        ensures
            w == display_width(self@.content),
    {
        text_width(self.content.as_str())
    }
}

/// A line added to the list adds its view.
pub proof fn lemma_line_views_push(v: Seq<Line>, x: Line)
    ensures
        line_views(v.push(x)) == line_views(v).push(x@),
{
    assert(line_views(v.push(x)) =~= line_views(v).push(x@));
}

impl Line {
    /// A line of one span.
    pub fn single(span: Span) -> (l: Line)
        ensures
            l@ == seq![span@],
    {
        let mut spans: Vec<Span> = Vec::new();
        spans.push(span);
        let l = Line { spans };
        assert(l@ =~= seq![span@]);
        l
    }

    /// The columns that the line takes on a terminal.
    pub fn width(&self) -> (w: usize)
        ensures
            w == saturated(spans_width(self@)),
    {
        columns(&self.spans)
    }
}

/// The columns that the spans take together.
pub open spec fn spans_width(spans: Seq<SpanView>) -> nat
    decreases spans.len(),
{
    if spans.len() == 0 {
        0
    } else {
        spans_width(spans.drop_last()) + display_width(spans.last().content)
    }
}

/// `n`, or the largest `usize` where `n` is beyond it.
pub open spec fn saturated(n: nat) -> usize {
    if n > usize::MAX {
        usize::MAX
    } else {
        n as usize
    }
}

/// The columns that the spans take together, at most `usize::MAX`.
pub fn columns(spans: &Vec<Span>) -> (w: usize)
    ensures
        w == saturated(spans_width(span_views(spans@))),
{
    let mut w: usize = 0;
    let mut i: usize = 0;
    while i < spans.len()
        invariant
            i <= spans.len(),
            w == saturated(spans_width(span_views(spans@).take(i as int))),
        decreases spans.len() - i,
    {
        proof {
            let t = span_views(spans@).take(i + 1);
            assert(t.drop_last() =~= span_views(spans@).take(i as int));
            assert(t.last() == spans@[i as int]@);
        }
        w = w.saturating_add(spans[i].width());
        i += 1;
    }
    assert(span_views(spans@).take(spans.len() as int) =~= span_views(spans@));
    w
}

} // verus!
