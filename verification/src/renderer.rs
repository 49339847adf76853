//! The markdown layout engine: turns the event stream of a document into
//! styled lines for a given width, with the link destinations in document
//! order and the place of every image.

use vstd::prelude::*;
use crate::code_highlight::{
    boxed_code, chosen_token, highlight_code, syntax_colors, Highlighter,
};
use crate::events::{markdown_events, parse_markdown, preview_extensions, ColumnAlign, MdEvent};
use crate::math::{latex_chars, latex_unicode};
use crate::style::{
    columns, lemma_line_views_push, line_views, saturated, span_views, spans_width, styled,
    Color, Line, Modifier, Span, SpanView, Style,
};
use crate::style_ext::{ext_spans, lemma_span_views_push, style_extension_spans};
use crate::table_format::{negotiate_widths, negotiated, total};
use crate::text::{
    append, chars_of, copy, decimal, format_number, last_index_before, repeat_char,
    repeat_text, repeated, repeated_text, rfind_char, same_text, slice, split, split_on,
    string_of, string_texts, texts, trim, trimmed,
};
use crate::theme;

verus! {

/// Where an image stands in the rendered lines.
#[derive(Debug)]
pub struct ImageInfo {
    pub url: String,
    pub start_line: usize,
    pub line_count: usize,
}

/// An `ImageInfo` with its destination as a sequence of characters.
pub struct ImageInfoView {
    pub url: Seq<char>,
    pub start_line: int,
    pub line_count: int,
}

impl View for ImageInfo {
    type V = ImageInfoView;

    open spec fn view(&self) -> ImageInfoView {
        ImageInfoView {
            url: self.url@,
            start_line: self.start_line as int,
            line_count: self.line_count as int,
        }
    }
}

/// The views of a list of image places.
pub open spec fn image_views(v: Seq<ImageInfo>) -> Seq<ImageInfoView> {
    Seq::new(v.len(), |i: int| v[i]@)
}

/// The styled lines of a document.
#[derive(Debug)]
pub struct Text {
    pub lines: Vec<Line>,
}

/// Rendered markdown with what later stages need.
#[derive(Debug)]
pub struct RenderedMarkdown {
    pub text: Text,
    /// Link destinations in document order.
    pub link_urls: Vec<String>,
    /// The place and destination of every image.
    pub image_infos: Vec<ImageInfo>,
}

/// A rendered document as values.
pub struct RenderedView {
    pub lines: Seq<Seq<SpanView>>,
    pub link_urls: Seq<Seq<char>>,
    pub images: Seq<ImageInfoView>,
}

impl View for RenderedMarkdown {
    type V = RenderedView;

    open spec fn view(&self) -> RenderedView {
        RenderedView {
            lines: line_views(self.text.lines@),
            link_urls: string_texts(self.link_urls@),
            images: image_views(self.image_infos@),
        }
    }
}

/// The views of the cells of a table row.
pub open spec fn cell_views(row: Seq<Vec<Span>>) -> Seq<Seq<SpanView>> {
    Seq::new(row.len(), |j: int| span_views(row[j]@))
}

/// The views of the rows of a table.
pub open spec fn row_views(rows: Seq<Vec<Vec<Span>>>) -> Seq<Seq<Seq<SpanView>>> {
    Seq::new(rows.len(), |i: int| cell_views(rows[i]@))
}

/// The state of the layout between two events.
pub struct Layout {
    lines: Vec<Line>,
    spans: Vec<Span>,
    styles: Vec<Style>,
    in_code: bool,
    code_lang: Vec<char>,
    code: Vec<char>,
    quote: Vec<char>,
    lists: Vec<Option<u64>>,
    in_table: bool,
    rows: Vec<Vec<Vec<Span>>>,
    cell: Vec<Span>,
    header_count: usize,
    alignments: Vec<ColumnAlign>,
    link_url: Vec<char>,
    image_url: Vec<char>,
    link_urls: Vec<Vec<char>>,
    images: Vec<ImageInfo>,
}

/// The state of the layout as values: the finished lines, the spans of the
/// line in the making, the stack of inline styles, the code block, quote
/// prefix, list counters and table being collected, and the links and images
/// seen so far.
pub struct LayoutView {
    pub lines: Seq<Seq<SpanView>>,
    pub spans: Seq<SpanView>,
    pub styles: Seq<Style>,
    pub in_code: bool,
    pub code_lang: Seq<char>,
    pub code: Seq<char>,
    /// The bars in front of every line inside block quotes: `│ ` once for
    /// each level.
    pub quote: Seq<char>,
    /// One entry for each open list: the number of the next item of an
    /// ordered list, `None` for an unordered one.
    pub lists: Seq<Option<u64>>,
    pub in_table: bool,
    pub rows: Seq<Seq<Seq<SpanView>>>,
    pub cell: Seq<SpanView>,
    pub header_count: int,
    pub alignments: Seq<ColumnAlign>,
    pub link_url: Seq<char>,
    pub image_url: Seq<char>,
    pub link_urls: Seq<Seq<char>>,
    pub images: Seq<ImageInfoView>,
}

impl View for Layout {
    type V = LayoutView;

    closed spec fn view(&self) -> LayoutView {
        LayoutView {
            lines: line_views(self.lines@),
            spans: span_views(self.spans@),
            styles: self.styles@,
            in_code: self.in_code,
            code_lang: self.code_lang@,
            code: self.code@,
            quote: self.quote@,
            lists: self.lists@,
            in_table: self.in_table,
            rows: row_views(self.rows@),
            cell: span_views(self.cell@),
            header_count: self.header_count as int,
            alignments: self.alignments@,
            link_url: self.link_url@,
            image_url: self.image_url@,
            link_urls: texts(self.link_urls@),
            images: image_views(self.images@),
        }
    }
}

/// The default text style: the terminal's own foreground.
pub open spec fn base_style() -> Style {
    Style::plain().with_fg(theme::FG)
}

/// The state before the first event.
pub open spec fn initial_layout() -> LayoutView {
    LayoutView {
        lines: Seq::empty(),
        spans: Seq::empty(),
        styles: seq![base_style()],
        in_code: false,
        code_lang: Seq::empty(),
        code: Seq::empty(),
        quote: Seq::empty(),
        lists: Seq::empty(),
        in_table: false,
        rows: Seq::empty(),
        cell: Seq::empty(),
        header_count: 0,
        alignments: Seq::empty(),
        link_url: Seq::empty(),
        image_url: Seq::empty(),
        link_urls: Seq::empty(),
        images: Seq::empty(),
    }
}

/// The style on top of the stack; the default where the stack is empty.
pub open spec fn current_style(styles: Seq<Style>) -> Style {
    if styles.len() > 0 {
        styles.last()
    } else {
        base_style()
    }
}

/// `overlay` on top of `base`: the colors of `overlay`, the attributes of
/// both.
pub open spec fn composed(base: Style, overlay: Style) -> Style {
    Style { add_modifier: overlay.add_modifier.joined(base.add_modifier), ..overlay }
}

/// The stack without its top; an empty stack stays empty.
pub open spec fn popped(styles: Seq<Style>) -> Seq<Style> {
    if styles.len() > 0 {
        styles.drop_last()
    } else {
        styles
    }
}

/// The quote bars as a span in the given color; nothing outside quotes.
pub open spec fn quote_part(quote: Seq<char>, color: Color) -> Seq<SpanView> {
    if quote.len() > 0 {
        seq![styled(quote, Style::plain().with_fg(color))]
    } else {
        Seq::empty()
    }
}

/// The line in the making moved to the finished lines, if it holds a span.
pub open spec fn flushed(s: LayoutView) -> LayoutView {
    if s.spans.len() > 0 {
        LayoutView { lines: s.lines.push(s.spans), spans: Seq::empty(), ..s }
    } else {
        s
    }
}

/// A blank line added: only the quote bars inside a quote, else nothing.
pub open spec fn with_blank(s: LayoutView) -> LayoutView {
    LayoutView { lines: s.lines.push(quote_part(s.quote, theme::quote_border_color())), ..s }
}

/// The quote bars put at the start of the line in the making, if that line
/// is still empty.
pub open spec fn with_quote(s: LayoutView) -> LayoutView {
    if s.quote.len() > 0 && s.spans.len() == 0 {
        LayoutView { spans: quote_part(s.quote, theme::quote_border_color()), ..s }
    } else {
        s
    }
}

/// A span added to the line in the making.
pub open spec fn with_span(s: LayoutView, span: SpanView) -> LayoutView {
    LayoutView { spans: s.spans.push(span), ..s }
}

/// A finished line added.
pub open spec fn with_line(s: LayoutView, line: Seq<SpanView>) -> LayoutView {
    LayoutView { lines: s.lines.push(line), ..s }
}

/// Whether a span shows nothing: whitespace only, or a single quote bar.
pub open spec fn is_blank_span(span: SpanView) -> bool {
    trimmed(span.content).len() == 0 || trimmed(span.content) == seq!['│']
}

/// Whether a line shows nothing.
pub open spec fn is_blank_line(line: Seq<SpanView>) -> bool {
    forall|i: int| 0 <= i < line.len() ==> is_blank_span(#[trigger] line[i])
}

/// Whether the last finished line is blank; true before the first line.
pub open spec fn ends_blank(s: LayoutView) -> bool {
    s.lines.len() == 0 || is_blank_line(s.lines.last())
}

/// A row added to the list adds its view.
pub proof fn lemma_row_views_push(v: Seq<Vec<Vec<Span>>>, x: Vec<Vec<Span>>)
    ensures
        row_views(v.push(x)) == row_views(v).push(cell_views(x@)),
{
    assert(row_views(v.push(x)) =~= row_views(v).push(cell_views(x@)));
}

/// A cell added to the row adds its view.
pub proof fn lemma_cell_views_push(v: Seq<Vec<Span>>, x: Vec<Span>)
    ensures
        cell_views(v.push(x)) == cell_views(v).push(span_views(x@)),
{
    assert(cell_views(v.push(x)) =~= cell_views(v).push(span_views(x@)));
}

fn fg_style(color: Color) -> (s: Style)
    ensures
        s == Style::plain().with_fg(color),
{
    Style::new().fg(color)
}

fn quote_spans(quote: &Vec<char>, color: Color) -> (r: Vec<Span>)
    ensures
        span_views(r@) == quote_part(quote@, color),
{
    let mut r: Vec<Span> = Vec::new();
    if quote.len() > 0 {
        r.push(Span::styled(quote, fg_style(color)));
    }
    assert(span_views(r@) =~= quote_part(quote@, color));
    r
}

fn push_span(spans: &mut Vec<Span>, content: &Vec<char>, style: Style)
    ensures
        span_views(final(spans)@) == span_views(old(spans)@).push(styled(content@, style)),
{
    let span = Span::styled(content, style);
    proof {
        lemma_span_views_push(spans@, span);
    }
    spans.push(span);
}

fn extend_spans(spans: &mut Vec<Span>, more: Vec<Span>)
    ensures
        span_views(final(spans)@) == span_views(old(spans)@) + span_views(more@),
{
    let mut more = more;
    let ghost added = span_views(more@);
    spans.append(&mut more);
    assert(span_views(spans@) =~= span_views(old(spans)@) + added);
}

fn blank_span(span: &Span) -> (r: bool)
    ensures
        r == is_blank_span(span@),
{
    let t = trim(&span.chars());
    if t.len() == 0 {
        true
    } else {
        let mut bar: Vec<char> = Vec::new();
        bar.push('│');
        assert(bar@ =~= seq!['│']);
        same_text(&t, &bar)
    }
}

fn blank_line(line: &Line) -> (r: bool)
    ensures
        r == is_blank_line(line@),
{
    let mut i: usize = 0;
    while i < line.spans.len()
        invariant
            i <= line.spans.len(),
            forall|k: int| 0 <= k < i ==> is_blank_span(#[trigger] line@[k]),
        decreases line.spans.len() - i,
    {
        assert(line@[i as int] == line.spans@[i as int]@);
        if !blank_span(&line.spans[i]) {
            return false;
        }
        i += 1;
    }
    true
}

impl Layout {
    /// The state before the first event.
    pub fn new() -> (s: Layout)
        ensures
            s@ == initial_layout(),
    {
        let mut styles: Vec<Style> = Vec::new();
        styles.push(fg_style(theme::FG));
        let s = Layout {
            lines: Vec::new(),
            spans: Vec::new(),
            styles,
            in_code: false,
            code_lang: Vec::new(),
            code: Vec::new(),
            quote: Vec::new(),
            lists: Vec::new(),
            in_table: false,
            rows: Vec::new(),
            cell: Vec::new(),
            header_count: 0,
            alignments: Vec::new(),
            link_url: Vec::new(),
            image_url: Vec::new(),
            link_urls: Vec::new(),
            images: Vec::new(),
        };
        assert(s@.lines =~= Seq::empty());
        assert(s@.spans =~= Seq::empty());
        assert(s@.styles =~= seq![base_style()]);
        assert(s@.rows =~= Seq::empty());
        assert(s@.cell =~= Seq::empty());
        assert(s@.link_urls =~= Seq::empty());
        assert(s@.images =~= Seq::empty());
        s
    }

    fn flush_line(&mut self)
        ensures
            final(self)@ == flushed(old(self)@),
    {
        if self.spans.len() > 0 {
            let mut spans: Vec<Span> = Vec::new();
            std::mem::swap(&mut spans, &mut self.spans);
            let line = Line { spans };
            proof {
                lemma_line_views_push(self.lines@, line);
                assert(span_views(self.spans@) =~= Seq::empty());
            }
            self.lines.push(line);
        }
    }

    fn push_line(&mut self, line: Line)
        ensures
            final(self)@ == with_line(old(self)@, line@),
    {
        proof {
            lemma_line_views_push(self.lines@, line);
        }
        self.lines.push(line);
    }

    fn push_blank_line(&mut self)
        ensures
            final(self)@ == with_blank(old(self)@),
    {
        let line = Line { spans: quote_spans(&self.quote, theme::quote_border_color()) };
        self.push_line(line);
    }

    fn push_bq_prefix(&mut self)
        ensures
            final(self)@ == with_quote(old(self)@),
    {
        if self.quote.len() > 0 && self.spans.len() == 0 {
            self.spans = quote_spans(&self.quote, theme::quote_border_color());
        }
    }

    fn push_styled(&mut self, content: &Vec<char>, style: Style)
        ensures
            final(self)@ == with_span(old(self)@, styled(content@, style)),
    {
        push_span(&mut self.spans, content, style);
    }

    fn current(&self) -> (r: Style)
        ensures
            r == current_style(self@.styles),
    {
        if self.styles.len() > 0 {
            self.styles[self.styles.len() - 1]
        } else {
            fg_style(theme::FG)
        }
    }

    fn push_style(&mut self, style: Style)
        ensures
            final(self)@ == (LayoutView { styles: old(self)@.styles.push(style), ..old(self)@ }),
    {
        self.styles.push(style);
    }

    fn pop_style(&mut self)
        ensures
            final(self)@ == (LayoutView { styles: popped(old(self)@.styles), ..old(self)@ }),
    {
        let _ = self.styles.pop();
        assert(self.styles@ =~= popped(old(self).styles@));
    }

    fn last_is_blank(&self) -> (r: bool)
        ensures
            r == ends_blank(self@),
    {
        if self.lines.len() == 0 {
            true
        } else {
            assert(self@.lines.last() == self.lines@[self.lines.len() - 1]@);
            blank_line(&self.lines[self.lines.len() - 1])
        }
    }
}

fn compose_style(base: Style, overlay: Style) -> (r: Style)
    ensures
        r == composed(base, overlay),
{
    Style {
        fg: overlay.fg,
        bg: overlay.bg,
        add_modifier: overlay.add_modifier.union(base.add_modifier),
    }
}

/// The words of `s` from `i` on, each with the space that ends it, where the
/// current word starts at `cur`.
pub open spec fn words_from(s: Seq<char>, i: int, cur: int) -> Seq<Seq<char>>
    decreases s.len() - i,
{
    if i < 0 || i >= s.len() {
        if cur < s.len() {
            seq![s.subrange(cur, s.len() as int)]
        } else {
            Seq::empty()
        }
    } else if s[i] == ' ' {
        seq![s.subrange(cur, i + 1)] + words_from(s, i + 1, i + 1)
    } else {
        words_from(s, i + 1, cur)
    }
}

/// The chunks that the words from `k` on are gathered into, where `current`
/// is the chunk in the making and `col` the column after it: a word that
/// would pass `max_width` starts a new chunk at column 0, unless the chunk in
/// the making is empty.
pub open spec fn chunks_from(
    words: Seq<Seq<char>>,
    k: int,
    current: Seq<char>,
    col: int,
    max_width: int,
) -> Seq<Seq<char>>
    decreases words.len() - k,
{
    if k < 0 || k >= words.len() {
        if current.len() > 0 {
            seq![current]
        } else {
            Seq::empty()
        }
    } else if col + words[k].len() > max_width && current.len() > 0 {
        seq![current] + chunks_from(words, k + 1, words[k], words[k].len() as int, max_width)
    } else {
        chunks_from(words, k + 1, current + words[k], col + words[k].len(), max_width)
    }
}

/// The chunks that `text` is wrapped into when it starts at column
/// `current_col` of a line `max_width` wide: the text itself where it fits,
/// else its words gathered into chunks.
pub open spec fn word_wrapped(text: Seq<char>, max_width: int, current_col: int) -> Seq<Seq<char>> {
    let remaining = if max_width > current_col {
        max_width - current_col
    } else {
        0
    };
    let chunks = chunks_from(words_from(text, 0, 0), 0, Seq::empty(), current_col, max_width);
    if text.len() <= remaining || chunks.len() == 0 {
        seq![text]
    } else {
        chunks
    }
}

fn split_words(s: &Vec<char>) -> (r: Vec<Vec<char>>)
    ensures
        texts(r@) == words_from(s@, 0, 0),
{
    let mut r: Vec<Vec<char>> = Vec::new();
    let mut i: usize = 0;
    let mut cur: usize = 0;
    assert(texts(r@) =~= Seq::<Seq<char>>::empty());
    while i < s.len()
        invariant
            cur <= i <= s.len(),
            texts(r@) + words_from(s@, i as int, cur as int) == words_from(s@, 0, 0),
        decreases s.len() - i,
    {
        if s[i] == ' ' {
            let piece = slice(s, cur, i + 1);
            proof {
                assert(texts(r@.push(piece)) =~= texts(r@).push(piece@));
                assert(texts(r@.push(piece)) + words_from(s@, i + 1, i + 1) =~= texts(r@)
                    + words_from(s@, i as int, cur as int));
            }
            r.push(piece);
            cur = i + 1;
        }
        i += 1;
    }
    if cur < s.len() {
        let piece = slice(s, cur, s.len());
        proof {
            assert(texts(r@.push(piece)) =~= texts(r@).push(piece@));
        }
        r.push(piece);
    } else {
        assert(texts(r@) + Seq::<Seq<char>>::empty() =~= texts(r@));
    }
    r
}

/// Wraps a run of text that follows the spans `existing` on its line.
pub fn word_wrap(text: &Vec<char>, max_width: usize, existing: &Vec<Span>) -> (r: Vec<Vec<char>>)
    ensures
        texts(r@) == word_wrapped(
            text@,
            max_width as int,
            saturated(spans_width(span_views(existing@))) as int,
        ),
{
    let current_col = columns(existing);
    let remaining = if max_width > current_col {
        max_width - current_col
    } else {
        0
    };
    let mut result: Vec<Vec<char>> = Vec::new();
    if text.len() > remaining {
        let words = split_words(text);
        let ghost w = words_from(text@, 0, 0);
        let mut current: Vec<char> = Vec::new();
        let mut col: u128 = current_col as u128;
        let mut k: usize = 0;
        assert(texts(result@) =~= Seq::<Seq<char>>::empty());
        while k < words.len()
            invariant
                k <= words.len(),
                w == texts(words@),
                col <= (k + 1) * usize::MAX,
                texts(result@) + chunks_from(w, k as int, current@, col as int, max_width as int)
                    == chunks_from(w, 0, Seq::empty(), current_col as int, max_width as int),
            decreases words.len() - k,
        {
            let word = &words[k];
            proof {
                assert(w[k as int] == word@);
                assert((k + 2) * usize::MAX == (k + 1) * usize::MAX + usize::MAX)
                    by (nonlinear_arith);
                assert((k + 1) * usize::MAX <= usize::MAX * usize::MAX + usize::MAX)
                    by (nonlinear_arith)
                    requires
                        k <= usize::MAX,
                ;
            }
            if col + word.len() as u128 > max_width as u128 && current.len() > 0 {
                proof {
                    assert(texts(result@.push(current)) =~= texts(result@).push(current@));
                    assert(texts(result@.push(current)) + chunks_from(
                        w,
                        k + 1,
                        word@,
                        word@.len() as int,
                        max_width as int,
                    ) =~= texts(result@) + chunks_from(
                        w,
                        k as int,
                        current@,
                        col as int,
                        max_width as int,
                    ));
                }
                result.push(current);
                current = copy(word);
                col = word.len() as u128;
            } else {
                append(&mut current, word);
                col = col + word.len() as u128;
            }
            k += 1;
        }
        if current.len() > 0 {
            proof {
                assert(texts(result@.push(current)) =~= texts(result@).push(current@));
            }
            result.push(current);
        } else {
            assert(texts(result@) + Seq::<Seq<char>>::empty() =~= texts(result@));
        }
    }
    if result.len() == 0 {
        let mut only: Vec<Vec<char>> = Vec::new();
        only.push(copy(text));
        assert(texts(only@) =~= seq![text@]);
        only
    } else {
        result
    }
}

/// The spans added to the line in the making.
pub open spec fn with_spans(s: LayoutView, spans: Seq<SpanView>) -> LayoutView {
    LayoutView { spans: s.spans + spans, ..s }
}

/// The chunks from `k` on laid out: each chunk's spans go on the line in the
/// making, and after each chunk but the last the line is finished and the
/// next one started with the quote bars.
pub open spec fn chunks_laid(s: LayoutView, chunks: Seq<Seq<char>>, k: int, style: Style) -> LayoutView
    decreases chunks.len() - k,
{
    if k < 0 || k >= chunks.len() {
        s
    } else if k < chunks.len() - 1 {
        chunks_laid(
            with_quote(flushed(with_spans(s, ext_spans(chunks[k], style)))),
            chunks,
            k + 1,
            style,
        )
    } else {
        with_spans(s, ext_spans(chunks[k], style))
    }
}

/// A run of text laid out in the flow of a paragraph: wrapped at `width`,
/// with the inline style extensions applied to every chunk.
pub open spec fn text_laid(s: LayoutView, text: Seq<char>, width: int) -> LayoutView {
    let s1 = with_quote(s);
    let style = current_style(s1.styles);
    let chunks = word_wrapped(text, width, saturated(spans_width(s1.spans)) as int);
    if chunks.len() <= 1 {
        with_spans(s1, ext_spans(text, style))
    } else {
        chunks_laid(s1, chunks, 0, style)
    }
}

/// What a text event does: inside a code block the text joins the code,
/// inside a table it becomes a span of the cell, else it is laid out.
pub open spec fn after_text(s: LayoutView, text: Seq<char>, width: int) -> LayoutView {
    if s.in_code {
        LayoutView { code: s.code + text, ..s }
    } else if s.in_table {
        LayoutView { cell: s.cell.push(styled(text, current_style(s.styles))), ..s }
    } else {
        text_laid(s, text, width)
    }
}

impl Layout {
    fn add_spans(&mut self, more: Vec<Span>)
        ensures
            final(self)@ == with_spans(old(self)@, span_views(more@)),
    {
        extend_spans(&mut self.spans, more);
    }

    fn lay_text(&mut self, text: &Vec<char>, width: usize)
        ensures
            final(self)@ == text_laid(old(self)@, text@, width as int),
    {
        self.push_bq_prefix();
        let style = self.current();
        let chunks = word_wrap(text, width, &self.spans);
        if chunks.len() <= 1 {
            self.add_spans(style_extension_spans(text, style));
        } else {
            let ghost start = self@;
            let ghost c = texts(chunks@);
            let mut k: usize = 0;
            while k < chunks.len()
                invariant
                    k <= chunks.len(),
                    c == texts(chunks@),
                    chunks_laid(self@, c, k as int, style) == chunks_laid(start, c, 0, style),
                decreases chunks.len() - k,
            {
                assert(c[k as int] == chunks@[k as int]@);
                self.add_spans(style_extension_spans(&chunks[k], style));
                if k < chunks.len() - 1 {
                    self.flush_line();
                    self.push_bq_prefix();
                }
                k += 1;
            }
        }
    }

    fn on_text(&mut self, text: &Vec<char>, width: usize)
        ensures
            final(self)@ == after_text(old(self)@, text@, width as int),
    {
        if self.in_code {
            append(&mut self.code, text);
        } else if self.in_table {
            let style = self.current();
            push_span(&mut self.cell, text, style);
        } else {
            self.lay_text(text, width);
        }
    }
}

/// The style of table borders.
pub open spec fn border_style() -> Style {
    Style::plain().with_fg(theme::BORDER)
}

/// The columns that a cell takes.
pub open spec fn cell_width(cell: Seq<SpanView>) -> usize {
    saturated(spans_width(cell))
}

/// The number of cells of the longest row.
pub open spec fn table_columns(rows: Seq<Seq<Seq<SpanView>>>) -> nat
    decreases rows.len(),
{
    if rows.len() == 0 {
        0
    } else if table_columns(rows.drop_last()) >= rows.last().len() {
        table_columns(rows.drop_last())
    } else {
        rows.last().len()
    }
}

/// The columns that cell `j` of the row takes; 0 where the row has no such
/// cell.
pub open spec fn cell_columns(row: Seq<Seq<SpanView>>, j: int) -> usize {
    if 0 <= j < row.len() {
        cell_width(row[j])
    } else {
        0
    }
}

/// The natural width of column `j`: that of its widest cell, but no less
/// than 3.
pub open spec fn column_width(rows: Seq<Seq<Seq<SpanView>>>, j: int) -> usize
    decreases rows.len(),
{
    if rows.len() == 0 {
        3
    } else if column_width(rows.drop_last(), j) >= cell_columns(rows.last(), j) {
        column_width(rows.drop_last(), j)
    } else {
        cell_columns(rows.last(), j)
    }
}

/// The natural widths of all columns.
pub open spec fn natural_columns(rows: Seq<Seq<Seq<SpanView>>>) -> Seq<usize> {
    Seq::new(table_columns(rows), |j: int| column_width(rows, j))
}

/// The width left for cell content: the line width less the quote bars, less
/// a border and two spaces for each column and one closing border.
pub open spec fn table_available(width: int, quote_len: int, cols: int) -> int {
    let effective = if width > quote_len {
        width - quote_len
    } else {
        0
    };
    if effective > cols + 1 + cols * 2 {
        effective - (cols + 1 + cols * 2)
    } else {
        0
    }
}

/// The widths of the columns of a table in a line `width` wide.
pub open spec fn table_widths(rows: Seq<Seq<Seq<SpanView>>>, width: int, quote_len: int) -> Seq<
    usize,
> {
    negotiated(
        natural_columns(rows),
        table_available(width, quote_len, table_columns(rows) as int),
    )
}

/// The spans of a cell from `i` on that fit into `remaining` columns: a span
/// that fits is kept, the first that does not is cut to the columns left,
/// and later ones are kept only where they take no column.
pub open spec fn truncated_from(cell: Seq<SpanView>, i: int, remaining: int) -> Seq<SpanView>
    decreases cell.len() - i,
{
    if i < 0 || i >= cell.len() {
        Seq::empty()
    } else if crate::style::display_width(cell[i].content) <= remaining {
        seq![cell[i]] + truncated_from(
            cell,
            i + 1,
            remaining - crate::style::display_width(cell[i].content),
        )
    } else if remaining > 0 {
        seq![
            styled(
                if remaining < cell[i].content.len() {
                    cell[i].content.take(remaining)
                } else {
                    cell[i].content
                },
                cell[i].style,
            ),
        ] + truncated_from(cell, i + 1, 0)
    } else {
        truncated_from(cell, i + 1, 0)
    }
}

/// The alignment of column `j`; unset where none is given.
pub open spec fn align_at(aligns: Seq<ColumnAlign>, j: int) -> ColumnAlign {
    if 0 <= j < aligns.len() {
        aligns[j]
    } else {
        ColumnAlign::Unset
    }
}

/// A span of `n` spaces in the default style.
pub open spec fn pad_span(n: int) -> SpanView {
    styled(repeated(' ', n as nat), base_style())
}

/// The spans for cell `j` of a row in a column `max_w` wide: the content,
/// cut where it is too wide, with the padding on the left for a
/// right-aligned column, on both sides for a centered one (the odd space on
/// the right), else on the right.
pub open spec fn cell_spans(row: Seq<Seq<SpanView>>, j: int, max_w: int, align: ColumnAlign) -> Seq<
    SpanView,
> {
    let cw = cell_columns(row, j);
    let pad = if max_w > cw {
        max_w - cw
    } else {
        0
    };
    let left = match align {
        ColumnAlign::Right => seq![pad_span(pad)],
        ColumnAlign::Center => seq![pad_span(pad / 2)],
        _ => Seq::empty(),
    };
    let content = if 0 <= j < row.len() {
        if cw <= max_w {
            row[j]
        } else {
            truncated_from(row[j], 0, max_w)
        }
    } else {
        Seq::empty()
    };
    let right = match align {
        ColumnAlign::Right => Seq::empty(),
        ColumnAlign::Center => seq![pad_span(pad - pad / 2)],
        _ => seq![pad_span(pad)],
    };
    left + content + right
}

/// The border after column `j` of `n`.
pub open spec fn column_border(j: int, n: int) -> SpanView {
    styled(
        if j < n - 1 {
            seq![' ', '│', ' ']
        } else {
            seq![' ', '│']
        },
        border_style(),
    )
}

/// The spans of the first `k` columns of a row, each with the border after
/// it.
pub open spec fn cells_upto(
    row: Seq<Seq<SpanView>>,
    widths: Seq<usize>,
    aligns: Seq<ColumnAlign>,
    k: int,
) -> Seq<SpanView>
    decreases k,
{
    if k <= 0 {
        Seq::empty()
    } else {
        cells_upto(row, widths, aligns, k - 1) + cell_spans(
            row,
            k - 1,
            widths[k - 1] as int,
            align_at(aligns, k - 1),
        ) + seq![column_border(k - 1, widths.len() as int)]
    }
}

/// The line for a table row.
pub open spec fn table_row_line(
    row: Seq<Seq<SpanView>>,
    widths: Seq<usize>,
    aligns: Seq<ColumnAlign>,
    quote: Seq<char>,
) -> Seq<SpanView> {
    quote_part(quote, theme::BORDER) + seq![styled(seq!['│', ' '], border_style())] + cells_upto(
        row,
        widths,
        aligns,
        widths.len() as int,
    )
}

/// The joint after column `j` of `n` in the rule under the header.
pub open spec fn rule_joint(j: int, n: int) -> SpanView {
    styled(
        if j < n - 1 {
            seq!['┼']
        } else {
            seq!['┤']
        },
        border_style(),
    )
}

/// The rule under the first `k` columns.
pub open spec fn rule_upto(widths: Seq<usize>, k: int) -> Seq<SpanView>
    decreases k,
{
    if k <= 0 {
        Seq::empty()
    } else {
        rule_upto(widths, k - 1) + seq![
            styled(repeated('─', (widths[k - 1] + 2) as nat), border_style()),
            rule_joint(k - 1, widths.len() as int),
        ]
    }
}

/// The rule under the header rows.
pub open spec fn header_rule(widths: Seq<usize>, quote: Seq<char>) -> Seq<SpanView> {
    quote_part(quote, theme::BORDER) + seq![styled(seq!['├'], border_style())] + rule_upto(
        widths,
        widths.len() as int,
    )
}

/// The lines for the first `k` rows; the rule follows row `header_count`.
pub open spec fn table_lines_upto(
    rows: Seq<Seq<Seq<SpanView>>>,
    k: int,
    header_count: int,
    widths: Seq<usize>,
    aligns: Seq<ColumnAlign>,
    quote: Seq<char>,
) -> Seq<Seq<SpanView>>
    decreases k,
{
    if k <= 0 {
        Seq::empty()
    } else {
        table_lines_upto(rows, k - 1, header_count, widths, aligns, quote) + seq![
            table_row_line(rows[k - 1], widths, aligns, quote),
        ] + if k == header_count {
            seq![header_rule(widths, quote)]
        } else {
            Seq::empty()
        }
    }
}

/// The lines of a table: one for each row, and a rule after the header. A
/// table without rows or without cells has no lines.
pub open spec fn table_lines(
    rows: Seq<Seq<Seq<SpanView>>>,
    header_count: int,
    aligns: Seq<ColumnAlign>,
    width: int,
    quote: Seq<char>,
) -> Seq<Seq<SpanView>> {
    if rows.len() == 0 || table_columns(rows) == 0 {
        Seq::empty()
    } else {
        table_lines_upto(
            rows,
            rows.len() as int,
            header_count,
            table_widths(rows, width, quote.len() as int),
            aligns,
            quote,
        )
    }
}

fn count_table_columns(rows: &Vec<Vec<Vec<Span>>>) -> (n: usize)
    ensures
        n == table_columns(row_views(rows@)),
{
    let mut n: usize = 0;
    let mut k: usize = 0;
    while k < rows.len()
        invariant
            k <= rows.len(),
            n == table_columns(row_views(rows@).take(k as int)),
        decreases rows.len() - k,
    {
        proof {
            let t = row_views(rows@).take(k + 1);
            assert(t.drop_last() =~= row_views(rows@).take(k as int));
            assert(t.last().len() == rows@[k as int].len());
        }
        if rows[k].len() > n {
            n = rows[k].len();
        }
        k += 1;
    }
    assert(row_views(rows@).take(rows.len() as int) =~= row_views(rows@));
    n
}

fn natural_column_width(rows: &Vec<Vec<Vec<Span>>>, j: usize) -> (w: usize)
    ensures
        w == column_width(row_views(rows@), j as int),
{
    let mut w: usize = 3;
    let mut k: usize = 0;
    while k < rows.len()
        invariant
            k <= rows.len(),
            w == column_width(row_views(rows@).take(k as int), j as int),
        decreases rows.len() - k,
    {
        proof {
            let t = row_views(rows@).take(k + 1);
            assert(t.drop_last() =~= row_views(rows@).take(k as int));
            assert(t.last() == cell_views(rows@[k as int]@));
        }
        if j < rows[k].len() {
            assert(cell_views(rows@[k as int]@)[j as int] == span_views(rows@[k as int]@[j as int]@));
            let cw = columns(&rows[k][j]);
            if cw > w {
                w = cw;
            }
        }
        k += 1;
    }
    assert(row_views(rows@).take(rows.len() as int) =~= row_views(rows@));
    w
}

fn available_in(width: usize, quote_len: usize, cols: usize) -> (a: usize)
    ensures
        a == table_available(width as int, quote_len as int, cols as int),
{
    let effective: usize = if width > quote_len {
        width - quote_len
    } else {
        0
    };
    let overhead: u128 = cols as u128 + 1 + (cols as u128) * 2;
    if effective as u128 > overhead {
        effective - overhead as usize
    } else {
        0
    }
}

fn truncate_cell(cell: &Vec<Span>, max_w: usize, out: &mut Vec<Span>)
    ensures
        span_views(final(out)@) == span_views(old(out)@) + truncated_from(
            span_views(cell@),
            0,
            max_w as int,
        ),
{
    let ghost c = span_views(cell@);
    let ghost before = span_views(out@);
    let mut remaining = max_w;
    let mut i: usize = 0;
    assert(before + truncated_from(c, 0, max_w as int) == before + truncated_from(
        c,
        0,
        max_w as int,
    ));
    while i < cell.len()
        invariant
            i <= cell.len(),
            c == span_views(cell@),
            span_views(out@) + truncated_from(c, i as int, remaining as int) == before
                + truncated_from(c, 0, max_w as int),
        decreases cell.len() - i,
    {
        let s = &cell[i];
        assert(c[i as int] == s@);
        let ghost goal = span_views(out@) + truncated_from(c, i as int, remaining as int);
        let sw = s.width();
        if sw <= remaining {
            let kept = s.clone();
            proof {
                lemma_span_views_push(out@, kept);
                assert(span_views(out@.push(kept)) + truncated_from(c, i + 1, remaining - sw)
                    =~= goal);
            }
            out.push(kept);
            remaining -= sw;
        } else if remaining > 0 {
            let chars = s.chars();
            let cut = if remaining < chars.len() {
                slice(&chars, 0, remaining)
            } else {
                chars
            };
            let ghost prev = span_views(out@);
            push_span(out, &cut, s.style);
            proof {
                assert(span_views(out@) + truncated_from(c, i + 1, 0) =~= goal);
            }
            remaining = 0;
        }
        i += 1;
    }
    assert(span_views(out@) + Seq::<SpanView>::empty() =~= span_views(out@));
}

fn push_pad(out: &mut Vec<Span>, n: usize)
    ensures
        span_views(final(out)@) == span_views(old(out)@).push(pad_span(n as int)),
{
    push_span(out, &repeat_char(' ', n), fg_style(theme::FG));
}

fn push_cell(row: &Vec<Vec<Span>>, j: usize, max_w: usize, align: ColumnAlign, out: &mut Vec<Span>)
    ensures
        span_views(final(out)@) == span_views(old(out)@) + cell_spans(
            cell_views(row@),
            j as int,
            max_w as int,
            align,
        ),
{
    let ghost before = span_views(out@);
    let ghost r = cell_views(row@);
    let cw: usize = if j < row.len() {
        assert(r[j as int] == span_views(row@[j as int]@));
        columns(&row[j])
    } else {
        0
    };
    let pad: usize = if max_w > cw {
        max_w - cw
    } else {
        0
    };
    match align {
        ColumnAlign::Right => {
            push_pad(out, pad);
        },
        ColumnAlign::Center => {
            push_pad(out, pad / 2);
        },
        _ => {},
    }
    let ghost left = span_views(out@);
    if j < row.len() {
        if cw <= max_w {
            let cell = &row[j];
            let mut k: usize = 0;
            while k < cell.len()
                invariant
                    k <= cell.len(),
                    span_views(out@) == left + span_views(cell@).take(k as int),
                decreases cell.len() - k,
            {
                let kept = cell[k].clone();
                proof {
                    lemma_span_views_push(out@, kept);
                    assert(left + span_views(cell@).take(k + 1) =~= (left + span_views(cell@).take(
                        k as int,
                    )).push(kept@));
                }
                out.push(kept);
                k += 1;
            }
            assert(span_views(cell@).take(cell.len() as int) =~= span_views(cell@));
        } else {
            truncate_cell(&row[j], max_w, out);
        }
    } else {
        assert(left + Seq::<SpanView>::empty() =~= left);
    }
    let ghost mid = span_views(out@);
    match align {
        ColumnAlign::Right => {},
        ColumnAlign::Center => {
            push_pad(out, pad - pad / 2);
        },
        _ => {
            push_pad(out, pad);
        },
    }
    assert(span_views(out@) =~= before + cell_spans(r, j as int, max_w as int, align));
}

fn row_line(
    row: &Vec<Vec<Span>>,
    widths: &Vec<usize>,
    aligns: &Vec<ColumnAlign>,
    quote: &Vec<char>,
) -> (l: Line)
    ensures
        l@ == table_row_line(cell_views(row@), widths@, aligns@, quote@),
{
    let mut spans = quote_spans(quote, theme::BORDER);
    let mut bar: Vec<char> = Vec::new();
    bar.push('│');
    bar.push(' ');
    assert(bar@ =~= seq!['│', ' ']);
    push_span(&mut spans, &bar, fg_style(theme::BORDER));
    let ghost head = span_views(spans@);
    let ghost r = cell_views(row@);
    let n = widths.len();
    let mut j: usize = 0;
    assert(head + Seq::<SpanView>::empty() =~= head);
    while j < n
        invariant
            j <= n,
            n == widths.len(),
            r == cell_views(row@),
            span_views(spans@) == head + cells_upto(r, widths@, aligns@, j as int),
        decreases n - j,
    {
        let align = if j < aligns.len() {
            aligns[j]
        } else {
            ColumnAlign::Unset
        };
        let ghost before = span_views(spans@);
        push_cell(row, j, widths[j], align, &mut spans);
        let mut border: Vec<char> = Vec::new();
        border.push(' ');
        border.push('│');
        if j < n - 1 {
            border.push(' ');
            assert(border@ =~= seq![' ', '│', ' ']);
        } else {
            assert(border@ =~= seq![' ', '│']);
        }
        push_span(&mut spans, &border, fg_style(theme::BORDER));
        assert(span_views(spans@) =~= head + cells_upto(r, widths@, aligns@, j + 1));
        j += 1;
    }
    Line { spans }
}

fn rule_line(widths: &Vec<usize>, quote: &Vec<char>) -> (l: Line)
    ensures
        l@ == header_rule(widths@, quote@),
{
    let mut spans = quote_spans(quote, theme::BORDER);
    let mut corner: Vec<char> = Vec::new();
    corner.push('├');
    assert(corner@ =~= seq!['├']);
    push_span(&mut spans, &corner, fg_style(theme::BORDER));
    let ghost head = span_views(spans@);
    let n = widths.len();
    let mut j: usize = 0;
    assert(head + Seq::<SpanView>::empty() =~= head);
    while j < n
        invariant
            j <= n,
            n == widths.len(),
            span_views(spans@) == head + rule_upto(widths@, j as int),
        decreases n - j,
    {
        push_span(
            &mut spans,
            &crate::text::repeat_char_wide('─', widths[j] as u128 + 2),
            fg_style(theme::BORDER),
        );
        let mut joint: Vec<char> = Vec::new();
        if j < n - 1 {
            joint.push('┼');
            assert(joint@ =~= seq!['┼']);
        } else {
            joint.push('┤');
            assert(joint@ =~= seq!['┤']);
        }
        push_span(&mut spans, &joint, fg_style(theme::BORDER));
        assert(span_views(spans@) =~= head + rule_upto(widths@, j + 1));
        j += 1;
    }
    Line { spans }
}

/// Renders the collected table rows as lines with box-drawing borders.
pub fn render_table(
    rows: &Vec<Vec<Vec<Span>>>,
    header_count: usize,
    alignments: &Vec<ColumnAlign>,
    width: usize,
    lines: &mut Vec<Line>,
    quote: &Vec<char>,
)
    ensures
        line_views(final(lines)@) == line_views(old(lines)@) + table_lines(
            row_views(rows@),
            header_count as int,
            alignments@,
            width as int,
            quote@,
        ),
{
    let ghost r = row_views(rows@);
    let ghost before = line_views(lines@);
    assert(before + Seq::<Seq<SpanView>>::empty() =~= before);
    if rows.len() == 0 {
        return ;
    }
    let num_cols = count_table_columns(rows);
    if num_cols == 0 {
        return ;
    }
    let mut natural: Vec<usize> = Vec::new();
    let mut j: usize = 0;
    while j < num_cols
        invariant
            j <= num_cols,
            natural@.len() == j,
            r == row_views(rows@),
            forall|m: int| 0 <= m < j ==> natural@[m] == column_width(r, m),
        decreases num_cols - j,
    {
        natural.push(natural_column_width(rows, j));
        j += 1;
    }
    assert(natural@ =~= natural_columns(r));
    let available = available_in(width, quote.len(), num_cols);
    let widths = negotiate_widths(natural.as_slice(), available);
    assert(widths@ =~= table_widths(r, width as int, quote@.len() as int));
    let mut i: usize = 0;
    while i < rows.len()
        invariant
            i <= rows.len(),
            r == row_views(rows@),
            line_views(lines@) == before + table_lines_upto(
                r,
                i as int,
                header_count as int,
                widths@,
                alignments@,
                quote@,
            ),
        decreases rows.len() - i,
    {
        let ghost goal = before + table_lines_upto(
            r,
            i + 1,
            header_count as int,
            widths@,
            alignments@,
            quote@,
        );
        assert(r[i as int] == cell_views(rows@[i as int]@));
        let line = row_line(&rows[i], &widths, alignments, quote);
        proof {
            lemma_line_views_push(lines@, line);
        }
        lines.push(line);
        if i + 1 == header_count {
            let rule = rule_line(&widths, quote);
            proof {
                lemma_line_views_push(lines@, rule);
            }
            lines.push(rule);
        }
        assert(line_views(lines@) =~= goal);
        i += 1;
    }
}

/// The number of lines that an image takes in the layout.
pub const IMAGE_HEIGHT: usize = 15;

/// The style of crossed-out text.
pub open spec fn strikethrough_style() -> Style {
    base_style().with_modifier(Modifier { crossed_out: true, ..Modifier::none() })
}

/// The style of math.
pub open spec fn math_style() -> Style {
    Style::plain().with_fg(theme::CODE).with_modifier(Modifier { italic: true, ..Modifier::none() })
}

/// The style of an image's alternative text.
pub open spec fn alt_style() -> Style {
    base_style().with_modifier(Modifier { italic: true, ..Modifier::none() })
}

/// The style of dimmed text.
pub open spec fn dim_style() -> Style {
    Style::plain().with_fg(theme::LINE_NUMBER)
}

/// A style pushed on the stack.
pub open spec fn with_style(s: LayoutView, style: Style) -> LayoutView {
    LayoutView { styles: s.styles.push(style), ..s }
}

/// The top style taken off the stack.
pub open spec fn without_style(s: LayoutView) -> LayoutView {
    LayoutView { styles: popped(s.styles), ..s }
}

/// A rule of `ch` under a heading, as wide as the line less the quote bars.
pub open spec fn heading_rule(quote: Seq<char>, ch: char, width: int) -> Seq<SpanView> {
    quote_part(quote, theme::quote_border_color()) + seq![
        styled(
            repeated(
                ch,
                (if width > quote.len() {
                    width - quote.len()
                } else {
                    0
                }) as nat,
            ),
            Style::plain().with_fg(theme::HEADING),
        ),
    ]
}

/// What the start of a heading does: the line in the making is finished, two
/// blank lines come before a heading of level 1 and one before a heading of
/// level 2, less one where the last line is blank already, and the heading
/// starts with its `#` marks.
pub open spec fn after_heading_start(s: LayoutView, level: u8) -> LayoutView {
    let s1 = flushed(s);
    let s2 = if level <= 1 {
        with_blank(
            if ends_blank(s1) {
                s1
            } else {
                with_blank(s1)
            },
        )
    } else if level == 2 && !ends_blank(s1) {
        with_blank(s1)
    } else {
        s1
    };
    with_style(
        with_span(
            with_quote(s2),
            styled(repeated('#', level as nat) + seq![' '], theme::heading()),
        ),
        theme::heading(),
    )
}

/// What the end of a heading does: the heading line is finished, a heavy
/// rule follows a heading of level 1 and a light one a heading of level 2,
/// then a blank line.
pub open spec fn after_heading_end(s: LayoutView, level: u8, width: int) -> LayoutView {
    let s1 = flushed(without_style(s));
    let s2 = if level == 1 {
        with_line(s1, heading_rule(s1.quote, '━', width))
    } else if level == 2 {
        with_line(s1, heading_rule(s1.quote, '─', width))
    } else {
        s1
    };
    with_blank(s2)
}

/// The number of the next item.
pub open spec fn next_number(n: u64) -> u64 {
    if n < u64::MAX {
        (n + 1) as u64
    } else {
        n
    }
}

/// The marker of a list item: two spaces for each enclosing list, then the
/// number and a dot in an ordered list, else a bullet.
pub open spec fn item_marker(lists: Seq<Option<u64>>) -> Seq<char> {
    let indent = repeated_text(
        seq![' ', ' '],
        (if lists.len() > 0 {
            lists.len() - 1
        } else {
            0
        }) as nat,
    );
    if lists.len() > 0 && lists.last().is_some() {
        indent + decimal(lists.last().unwrap() as nat) + seq!['.', ' ']
    } else {
        indent + seq!['•', ' ']
    }
}

/// The list counters after an item: the innermost ordered list counts up.
pub open spec fn lists_after_item(lists: Seq<Option<u64>>) -> Seq<Option<u64>> {
    if lists.len() > 0 && lists.last().is_some() {
        lists.update(lists.len() - 1, Some(next_number(lists.last().unwrap())))
    } else {
        lists
    }
}

/// What the start of a list item does.
pub open spec fn after_item_start(s: LayoutView) -> LayoutView {
    let s1 = with_quote(flushed(s));
    LayoutView {
        lists: lists_after_item(s1.lists),
        ..with_span(s1, styled(item_marker(s1.lists), base_style()))
    }
}

/// The texts of the spans, one after the other.
pub open spec fn contents_joined(spans: Seq<SpanView>) -> Seq<char>
    decreases spans.len(),
{
    if spans.len() == 0 {
        Seq::empty()
    } else {
        contents_joined(spans.drop_last()) + spans.last().content
    }
}

/// The part of an image's destination after its last `/`.
pub open spec fn image_filename(url: Seq<char>) -> Seq<char> {
    url.subrange(last_index_before(url, '/', url.len() as int) + 1, url.len() as int)
}

/// The text shown for an image: its alternative text, or `Image`.
pub open spec fn alt_display(alt: Seq<char>) -> Seq<char> {
    if alt.len() == 0 {
        "Image"@
    } else {
        alt
    }
}

/// The width inside the box of an image placeholder.
pub open spec fn image_inner_width(alt: Seq<char>, filename: Seq<char>) -> int {
    let a = alt.len() as int;
    let f = filename.len() as int;
    let m = if a >= f {
        a
    } else {
        f
    };
    (if m >= 6 {
        m
    } else {
        6
    }) + 2
}

/// A line of an image placeholder that shows `text`.
pub open spec fn image_text_line(quote: Seq<char>, text: Seq<char>, style: Style, inner: int) -> Seq<
    SpanView,
> {
    quote_part(quote, theme::BORDER) + seq![
        styled(seq!['│', ' '], border_style()),
        styled(text, style),
        styled(repeated(' ', (inner - text.len()) as nat) + seq![' ', '│'], border_style()),
    ]
}

/// A border of an image placeholder between the corners `left` and `right`.
pub open spec fn image_border(quote: Seq<char>, left: char, right: char, inner: int) -> Seq<
    SpanView,
> {
    quote_part(quote, theme::BORDER) + seq![
        styled(seq![left, '─'] + repeated('─', inner as nat) + seq!['─', right], border_style()),
    ]
}

/// The placeholder of an image: a box with the alternative text and the
/// file name, then blank lines up to the height kept for the bitmap.
pub open spec fn image_box(alt: Seq<char>, url: Seq<char>, quote: Seq<char>) -> Seq<Seq<SpanView>> {
    let shown = alt_display(alt);
    let filename = image_filename(url);
    let inner = image_inner_width(shown, filename);
    seq![
        image_border(quote, '╭', '╮', inner),
        image_text_line(quote, shown, alt_style(), inner),
        image_text_line(quote, filename, dim_style(), inner),
        image_border(quote, '╰', '╯', inner),
    ] + Seq::new((IMAGE_HEIGHT - 4) as nat, |i: int| quote_part(quote, theme::BORDER))
}

/// What the end of an image does: the spans gathered since its start give
/// the alternative text, the placeholder joins the lines, and the image is
/// noted with its first line and its height.
pub open spec fn after_image_end(s: LayoutView) -> LayoutView {
    let s1 = without_style(s);
    LayoutView {
        lines: s1.lines + image_box(contents_joined(s1.spans), s1.image_url, s1.quote),
        spans: Seq::empty(),
        images: s1.images.push(
            ImageInfoView {
                url: s1.image_url,
                start_line: s1.lines.len() as int,
                line_count: IMAGE_HEIGHT as int,
            },
        ),
        image_url: Seq::empty(),
        ..s1
    }
}

/// The lines with the quote bars in front of each.
pub open spec fn quoted_lines(lines: Seq<Seq<SpanView>>, quote: Seq<char>) -> Seq<Seq<SpanView>> {
    Seq::new(lines.len(), |i: int| quote_part(quote, theme::quote_border_color()) + lines[i])
}

/// What the end of a code block does: the code is highlighted and boxed at
/// the width left beside the quote bars, and a blank line follows.
pub open spec fn after_code_end(s: LayoutView, width: int) -> LayoutView {
    let code_width = if width > s.quote.len() {
        width - s.quote.len()
    } else {
        0
    };
    let boxed = boxed_code(
        syntax_colors(chosen_token(s.code_lang), s.code),
        s.code,
        s.code_lang,
        code_width,
    );
    with_blank(
        LayoutView {
            in_code: false,
            lines: s.lines + quoted_lines(boxed, s.quote),
            code: Seq::empty(),
            code_lang: Seq::empty(),
            ..s
        },
    )
}

/// What the end of a table does: the lines of the table join the document,
/// with no blank line after them.
pub open spec fn after_table_end(s: LayoutView, width: int) -> LayoutView {
    LayoutView {
        lines: s.lines + table_lines(s.rows, s.header_count, s.alignments, width, s.quote),
        in_table: false,
        rows: Seq::empty(),
        alignments: Seq::empty(),
        ..s
    }
}

/// What the end of a table cell does: the cell joins the last row.
pub open spec fn after_cell_end(s: LayoutView) -> LayoutView {
    if s.rows.len() > 0 {
        LayoutView {
            rows: s.rows.update(s.rows.len() - 1, s.rows.last().push(s.cell)),
            cell: Seq::empty(),
            ..s
        }
    } else {
        s
    }
}

/// What the end of a link does: the destination follows the link text in
/// parentheses and joins the list of links.
pub open spec fn after_link_end(s: LayoutView) -> LayoutView {
    let s1 = without_style(s);
    if s1.link_url.len() > 0 {
        LayoutView {
            link_urls: s1.link_urls.push(s1.link_url),
            link_url: Seq::empty(),
            ..with_span(s1, styled(seq![' ', '('] + s1.link_url + seq![')'], dim_style()))
        }
    } else {
        s1
    }
}

/// The quote bars with one level less.
pub open spec fn quote_closed(quote: Seq<char>) -> Seq<char> {
    if quote.len() >= 2 {
        quote.subrange(0, quote.len() - 2)
    } else {
        Seq::empty()
    }
}

/// What the end of a list does: after the outermost list a blank line.
pub open spec fn after_list_end(s: LayoutView) -> LayoutView {
    let s1 = LayoutView {
        lists: if s.lists.len() > 0 {
            s.lists.drop_last()
        } else {
            s.lists
        },
        ..s
    };
    if s1.lists.len() == 0 {
        with_blank(s1)
    } else {
        s1
    }
}

/// The lines of display math: each line of the converted text after two
/// spaces.
pub open spec fn math_lines(text: Seq<char>, quote: Seq<char>) -> Seq<Seq<SpanView>> {
    let pieces = split(latex_unicode(text), '\n');
    Seq::new(
        pieces.len(),
        |i: int|
            quote_part(quote, theme::quote_border_color()) + seq![
                styled(seq![' ', ' '] + pieces[i], math_style()),
            ],
    )
}

/// The text of a horizontal rule `avail` wide.
pub open spec fn rule_text(avail: int) -> Seq<char> {
    if avail >= 3 {
        seq!['╶'] + repeated('─', (avail - 2) as nat) + seq!['╴']
    } else {
        repeated('─', avail as nat)
    }
}

/// What a horizontal rule does.
pub open spec fn after_rule(s: LayoutView, width: int) -> LayoutView {
    let avail = if width > s.quote.len() {
        width - s.quote.len()
    } else {
        0
    };
    with_blank(
        with_line(
            s,
            quote_part(s.quote, theme::quote_border_color()) + seq![
                styled(rule_text(avail), border_style()),
            ],
        ),
    )
}

/// What inline code does: the code between two spaces, in the cell of a
/// table or on the line in the making.
pub open spec fn after_code(s: LayoutView, code: Seq<char>) -> LayoutView {
    let span = styled(seq![' '] + code + seq![' '], theme::code());
    if s.in_table {
        LayoutView { cell: s.cell.push(span), ..s }
    } else {
        with_span(with_quote(s), span)
    }
}

/// What a task marker does.
pub open spec fn after_task_marker(s: LayoutView, checked: bool) -> LayoutView {
    if checked {
        with_span(s, styled("[x] "@, Style::plain().with_fg(theme::SUCCESS)))
    } else {
        with_span(s, styled("[ ] "@, base_style()))
    }
}

/// The state after the event `e`, in a layout `width` columns wide.
pub open spec fn step(s: LayoutView, e: MdEvent, width: int) -> LayoutView {
    match e {
        MdEvent::StartHeading(level) => after_heading_start(s, level),
        MdEvent::EndHeading(level) => after_heading_end(s, level, width),
        MdEvent::StartStrong => with_style(s, composed(current_style(s.styles), theme::bold())),
        MdEvent::StartEmphasis => with_style(s, composed(current_style(s.styles), theme::italic())),
        MdEvent::StartStrikethrough => with_style(
            s,
            composed(current_style(s.styles), strikethrough_style()),
        ),
        MdEvent::EndStrong | MdEvent::EndEmphasis | MdEvent::EndStrikethrough => without_style(s),
        MdEvent::StartLink(url) => LayoutView {
            link_url: url@,
            ..with_style(s, composed(current_style(s.styles), theme::link()))
        },
        MdEvent::EndLink => after_link_end(s),
        MdEvent::StartImage(url) => with_style(
            flushed(LayoutView { image_url: url@, ..s }),
            base_style(),
        ),
        MdEvent::EndImage => after_image_end(s),
        MdEvent::StartCodeBlock(lang) => LayoutView {
            in_code: true,
            code: Seq::empty(),
            code_lang: lang@,
            ..s
        },
        MdEvent::EndCodeBlock => after_code_end(s, width),
        MdEvent::StartBlockQuote => LayoutView { quote: s.quote + seq!['│', ' '], ..s },
        MdEvent::EndBlockQuote => LayoutView { quote: quote_closed(s.quote), ..s },
        MdEvent::StartList(start) => {
            let s1 = if s.lists.len() > 0 {
                flushed(s)
            } else {
                s
            };
            LayoutView { lists: s1.lists.push(start), ..s1 }
        },
        MdEvent::EndList => after_list_end(s),
        MdEvent::StartItem => after_item_start(s),
        MdEvent::EndItem => flushed(s),
        MdEvent::StartTable(aligns) => LayoutView {
            in_table: true,
            rows: Seq::empty(),
            header_count: 0,
            alignments: aligns@,
            ..s
        },
        MdEvent::EndTable => after_table_end(s, width),
        MdEvent::StartTableHead | MdEvent::StartTableRow => LayoutView {
            rows: s.rows.push(Seq::empty()),
            ..s
        },
        MdEvent::EndTableHead => LayoutView { header_count: s.rows.len() as int, ..s },
        MdEvent::StartTableCell => LayoutView { cell: Seq::empty(), ..s },
        MdEvent::EndTableCell => after_cell_end(s),
        MdEvent::StartFootnoteDefinition(label) => with_span(
            with_quote(s),
            styled(seq!['['] + label@ + seq![']', ':', ' '], border_style()),
        ),
        MdEvent::EndFootnoteDefinition => flushed(s),
        MdEvent::EndDefinitionList => with_line(s, Seq::empty()),
        MdEvent::StartDefinitionTitle => with_style(s, theme::bold()),
        MdEvent::EndDefinitionTitle => flushed(without_style(s)),
        MdEvent::StartDefinition => with_span(
            with_quote(s),
            styled(seq![':', ' ', ' '], border_style()),
        ),
        MdEvent::EndDefinition => flushed(s),
        MdEvent::EndParagraph => with_blank(flushed(s)),
        MdEvent::Text(text) => after_text(s, text@, width),
        MdEvent::Code(code) => after_code(s, code@),
        MdEvent::SoftBreak | MdEvent::HardBreak => if s.in_table {
            s
        } else {
            flushed(s)
        },
        MdEvent::FootnoteReference(label) => with_span(
            with_quote(s),
            styled(seq!['['] + label@ + seq![']'], theme::link()),
        ),
        MdEvent::TaskListMarker(checked) => after_task_marker(s, checked),
        MdEvent::InlineMath(text) => with_span(
            with_quote(s),
            styled(latex_unicode(text@), math_style()),
        ),
        MdEvent::DisplayMath(text) => {
            let s1 = flushed(s);
            with_blank(LayoutView { lines: s1.lines + math_lines(text@, s1.quote), ..s1 })
        },
        MdEvent::Rule => after_rule(s, width),
        MdEvent::StartParagraph
        | MdEvent::EndTableRow
        | MdEvent::StartDefinitionList
        | MdEvent::Other => s,
    }
}

/// The state after the first `k` events.
pub open spec fn layout_after(events: Seq<MdEvent>, k: int, width: int) -> LayoutView
    decreases k,
{
    if k <= 0 {
        initial_layout()
    } else {
        step(layout_after(events, k - 1, width), events[k - 1], width)
    }
}

/// The rendered document for the events: the lines, with the line in the
/// making finished, and the links and images.
pub open spec fn rendered(events: Seq<MdEvent>, width: int) -> RenderedView {
    let s = flushed(layout_after(events, events.len() as int, width));
    RenderedView { lines: s.lines, link_urls: s.link_urls, images: s.images }
}

fn image_text(quote: &Vec<char>, text: &Vec<char>, style: Style, inner: u128) -> (l: Line)
    requires
        inner >= text.len(),
    ensures
        l@ == image_text_line(quote@, text@, style, inner as int),
{
    let mut spans = quote_spans(quote, theme::BORDER);
    let ghost q = span_views(spans@);
    let mut bar: Vec<char> = Vec::new();
    bar.push('│');
    bar.push(' ');
    assert(bar@ =~= seq!['│', ' ']);
    push_span(&mut spans, &bar, fg_style(theme::BORDER));
    push_span(&mut spans, text, style);
    let mut tail = crate::text::repeat_char_wide(' ', inner - text.len() as u128);
    tail.push(' ');
    tail.push('│');
    assert(tail@ =~= repeated(' ', (inner - text.len()) as nat) + seq![' ', '│']);
    push_span(&mut spans, &tail, fg_style(theme::BORDER));
    assert(span_views(spans@) =~= image_text_line(quote@, text@, style, inner as int));
    Line { spans }
}

fn image_edge(quote: &Vec<char>, left: char, right: char, inner: u128) -> (l: Line)
    ensures
        l@ == image_border(quote@, left, right, inner as int),
{
    let mut spans = quote_spans(quote, theme::BORDER);
    let mut text: Vec<char> = Vec::new();
    text.push(left);
    text.push('─');
    append(&mut text, &crate::text::repeat_char_wide('─', inner));
    text.push('─');
    text.push(right);
    assert(text@ =~= seq![left, '─'] + repeated('─', inner as nat) + seq!['─', right]);
    push_span(&mut spans, &text, fg_style(theme::BORDER));
    assert(span_views(spans@) =~= image_border(quote@, left, right, inner as int));
    Line { spans }
}

fn join_contents(spans: &Vec<Span>) -> (r: Vec<char>)
    ensures
        r@ == contents_joined(span_views(spans@)),
{
    let mut r: Vec<char> = Vec::new();
    let mut i: usize = 0;
    while i < spans.len()
        invariant
            i <= spans.len(),
            r@ == contents_joined(span_views(spans@).take(i as int)),
        decreases spans.len() - i,
    {
        proof {
            let t = span_views(spans@).take(i + 1);
            assert(t.drop_last() =~= span_views(spans@).take(i as int));
            assert(t.last() == spans@[i as int]@);
        }
        append(&mut r, &spans[i].chars());
        i += 1;
    }
    assert(span_views(spans@).take(spans.len() as int) =~= span_views(spans@));
    r
}

fn filename_of(url: &Vec<char>) -> (r: Vec<char>)
    ensures
        r@ == image_filename(url@),
{
    match rfind_char(url, '/', url.len()) {
        Some(k) => slice(url, k + 1, url.len()),
        None => slice(url, 0, url.len()),
    }
}

fn push_lines(lines: &mut Vec<Line>, more: Vec<Line>)
    ensures
        line_views(final(lines)@) == line_views(old(lines)@) + line_views(more@),
{
    let mut more = more;
    let ghost added = line_views(more@);
    lines.append(&mut more);
    assert(line_views(lines@) =~= line_views(old(lines)@) + added);
}

fn image_lines(alt: &Vec<char>, url: &Vec<char>, quote: &Vec<char>) -> (r: Vec<Line>)
    ensures
        line_views(r@) == image_box(alt@, url@, quote@),
{
    let shown = if alt.len() == 0 {
        chars_of("Image")
    } else {
        copy(alt)
    };
    let filename = filename_of(url);
    let m = if shown.len() >= filename.len() {
        shown.len()
    } else {
        filename.len()
    };
    let inner: u128 = (if m >= 6 {
        m
    } else {
        6
    }) as u128 + 2;
    let mut r: Vec<Line> = Vec::new();
    r.push(image_edge(quote, '╭', '╮', inner));
    r.push(image_text(quote, &shown, fg_style(theme::FG).add_modifier(Modifier::italic()), inner));
    r.push(image_text(quote, &filename, fg_style(theme::LINE_NUMBER), inner));
    r.push(image_edge(quote, '╰', '╯', inner));
    let ghost head = line_views(r@);
    let ghost blanks = Seq::new(
        (IMAGE_HEIGHT - 4) as nat,
        |i: int| quote_part(quote@, theme::BORDER),
    );
    let mut k: usize = 4;
    assert(head + blanks.take(0) =~= head);
    while k < IMAGE_HEIGHT
        invariant
            4 <= k <= IMAGE_HEIGHT,
            blanks == Seq::new(
                (IMAGE_HEIGHT - 4) as nat,
                |i: int| quote_part(quote@, theme::BORDER),
            ),
            line_views(r@) == head + blanks.take(k - 4),
        decreases IMAGE_HEIGHT - k,
    {
        let blank = Line { spans: quote_spans(quote, theme::BORDER) };
        proof {
            lemma_line_views_push(r@, blank);
            assert(head + blanks.take(k - 3) =~= (head + blanks.take(k - 4)).push(blank@));
        }
        r.push(blank);
        k += 1;
    }
    assert(blanks.take((IMAGE_HEIGHT - 4) as int) =~= blanks);
    assert(head =~= seq![
        image_border(quote@, '╭', '╮', inner as int),
        image_text_line(quote@, shown@, alt_style(), inner as int),
        image_text_line(quote@, filename@, dim_style(), inner as int),
        image_border(quote@, '╰', '╯', inner as int),
    ]);
    r
}

fn quote_lines(lines: Vec<Line>, quote: &Vec<char>) -> (r: Vec<Line>)
    ensures
        line_views(r@) == quoted_lines(line_views(lines@), quote@),
{
    let mut lines = lines;
    let ghost src = line_views(lines@);
    let mut r: Vec<Line> = Vec::new();
    let n = lines.len();
    let mut i: usize = 0;
    while i < n
        invariant
            i <= n,
            n == lines.len(),
            r@.len() == i,
            forall|k: int| i <= k < n ==> #[trigger] lines@[k]@ == src[k],
            forall|k: int|
                0 <= k < i ==> #[trigger] r@[k]@ == quote_part(
                    quote@,
                    theme::quote_border_color(),
                ) + src[k],
        decreases n - i,
    {
        let mut spans = quote_spans(quote, theme::quote_border_color());
        let mut taken: Vec<Span> = Vec::new();
        assert(lines@[i as int]@ == src[i as int]);
        let ghost old_lines = lines@;
        std::mem::swap(&mut taken, &mut lines[i].spans);
        assert(forall|k: int| i < k < n ==> lines@[k] == old_lines[k]);
        extend_spans(&mut spans, taken);
        r.push(Line { spans });
        i += 1;
    }
    assert(line_views(r@) =~= quoted_lines(src, quote@));
    r
}

fn math_block(text: &Vec<char>, quote: &Vec<char>) -> (r: Vec<Line>)
    ensures
        line_views(r@) == math_lines(text@, quote@),
{
    let converted = latex_chars(text);
    let pieces = split_on(&converted, '\n');
    let ghost p = split(latex_unicode(text@), '\n');
    let mut r: Vec<Line> = Vec::new();
    let mut i: usize = 0;
    while i < pieces.len()
        invariant
            i <= pieces.len(),
            p == texts(pieces@),
            r@.len() == i,
            forall|k: int|
                0 <= k < i ==> #[trigger] r@[k]@ == quote_part(
                    quote@,
                    theme::quote_border_color(),
                ) + seq![styled(seq![' ', ' '] + p[k], math_style())],
        decreases pieces.len() - i,
    {
        assert(p[i as int] == pieces@[i as int]@);
        let mut spans = quote_spans(quote, theme::quote_border_color());
        let mut t: Vec<char> = Vec::new();
        t.push(' ');
        t.push(' ');
        append(&mut t, &pieces[i]);
        assert(t@ =~= seq![' ', ' '] + p[i as int]);
        push_span(
            &mut spans,
            &t,
            fg_style(theme::CODE).add_modifier(Modifier::italic()),
        );
        let line = Line { spans };
        assert(line@ =~= quote_part(quote@, theme::quote_border_color()) + seq![
            styled(seq![' ', ' '] + p[i as int], math_style()),
        ]);
        r.push(line);
        i += 1;
    }
    assert(line_views(r@) =~= math_lines(text@, quote@));
    r
}

fn rule_chars(avail: usize) -> (r: Vec<char>)
    ensures
        r@ == rule_text(avail as int),
{
    if avail >= 3 {
        let mut r: Vec<char> = Vec::new();
        r.push('╶');
        append(&mut r, &repeat_char('─', avail - 2));
        r.push('╴');
        assert(r@ =~= seq!['╶'] + repeated('─', (avail - 2) as nat) + seq!['╴']);
        r
    } else {
        repeat_char('─', avail)
    }
}

fn bracketed(open: char, label: &Vec<char>, tail: &Vec<char>) -> (r: Vec<char>)
    ensures
        r@ == seq![open] + label@ + tail@,
{
    let mut r: Vec<char> = Vec::new();
    r.push(open);
    append(&mut r, label);
    append(&mut r, tail);
    assert(r@ =~= seq![open] + label@ + tail@);
    r
}

fn one(c: char) -> (r: Vec<char>)
    ensures
        r@ == seq![c],
{
    let mut r: Vec<char> = Vec::new();
    r.push(c);
    r
}

impl Layout {
    fn on_heading_start(&mut self, level: u8)
        ensures
            final(self)@ == after_heading_start(old(self)@, level),
    {
        self.flush_line();
        let prev_blank = self.last_is_blank();
        if level <= 1 {
            if !prev_blank {
                self.push_blank_line();
            }
            self.push_blank_line();
        } else if level == 2 && !prev_blank {
            self.push_blank_line();
        }
        self.push_bq_prefix();
        let mut marks = repeat_char('#', level as usize);
        marks.push(' ');
        assert(marks@ =~= repeated('#', level as nat) + seq![' ']);
        self.push_styled(&marks, theme::heading_style());
        self.push_style(theme::heading_style());
    }

    fn heading_rule_line(&self, ch: char, width: usize) -> (l: Line)
        ensures
            l@ == heading_rule(self@.quote, ch, width as int),
    {
        let mut spans = quote_spans(&self.quote, theme::quote_border_color());
        let n = if width > self.quote.len() {
            width - self.quote.len()
        } else {
            0
        };
        push_span(&mut spans, &repeat_char(ch, n), fg_style(theme::HEADING));
        let l = Line { spans };
        assert(l@ =~= heading_rule(self@.quote, ch, width as int));
        l
    }

    fn on_heading_end(&mut self, level: u8, width: usize)
        ensures
            final(self)@ == after_heading_end(old(self)@, level, width as int),
    {
        self.pop_style();
        self.flush_line();
        if level == 1 {
            let line = self.heading_rule_line('━', width);
            self.push_line(line);
        } else if level == 2 {
            let line = self.heading_rule_line('─', width);
            self.push_line(line);
        }
        self.push_blank_line();
    }

    fn on_item_start(&mut self)
        ensures
            final(self)@ == after_item_start(old(self)@),
    {
        self.flush_line();
        self.push_bq_prefix();
        let depth = self.lists.len();
        let mut two: Vec<char> = Vec::new();
        two.push(' ');
        two.push(' ');
        assert(two@ =~= seq![' ', ' ']);
        let mut marker = repeat_text(
            &two,
            if depth > 0 {
                depth - 1
            } else {
                0
            },
        );
        let ghost indent = marker@;
        let mut counter: Option<u64> = None;
        if depth > 0 {
            counter = self.lists[depth - 1];
        }
        match counter {
            Some(n) => {
                append(&mut marker, &format_number(n as u128));
                marker.push('.');
                marker.push(' ');
                assert(marker@ =~= indent + decimal(n as nat) + seq!['.', ' ']);
                let next = if n < u64::MAX {
                    n + 1
                } else {
                    n
                };
                self.lists.set(depth - 1, Some(next));
            },
            None => {
                marker.push('•');
                marker.push(' ');
                assert(marker@ =~= indent + seq!['•', ' ']);
            },
        }
        self.push_styled(&marker, fg_style(theme::FG));
    }

    fn on_image_end(&mut self)
        ensures
            final(self)@ == after_image_end(old(self)@),
    {
        self.pop_style();
        let start = self.lines.len();
        let alt = join_contents(&self.spans);
        self.spans = Vec::new();
        assert(span_views(self.spans@) =~= Seq::empty());
        let more = image_lines(&alt, &self.image_url, &self.quote);
        push_lines(&mut self.lines, more);
        let info = ImageInfo {
            url: string_of(&self.image_url),
            start_line: start,
            line_count: IMAGE_HEIGHT,
        };
        assert(image_views(self.images@.push(info)) =~= image_views(self.images@).push(info@));
        self.images.push(info);
        self.image_url = Vec::new();
    }

    fn on_code_end(&mut self, width: usize, hl: &Highlighter)
        ensures
            final(self)@ == after_code_end(old(self)@, width as int),
    {
        self.in_code = false;
        let code_width = if width > self.quote.len() {
            width - self.quote.len()
        } else {
            0
        };
        let code = string_of(&self.code);
        let lang = string_of(&self.code_lang);
        let boxed = highlight_code(hl, code.as_str(), lang.as_str(), code_width);
        let quoted = if self.quote.len() > 0 {
            quote_lines(boxed, &self.quote)
        } else {
            assert(quoted_lines(line_views(boxed@), self.quote@) =~= line_views(boxed@));
            boxed
        };
        push_lines(&mut self.lines, quoted);
        self.code = Vec::new();
        self.code_lang = Vec::new();
        self.push_blank_line();
    }

    fn on_table_end(&mut self, width: usize)
        ensures
            final(self)@ == after_table_end(old(self)@, width as int),
    {
        render_table(
            &self.rows,
            self.header_count,
            &self.alignments,
            width,
            &mut self.lines,
            &self.quote,
        );
        self.in_table = false;
        self.rows = Vec::new();
        self.alignments = Vec::new();
        assert(row_views(self.rows@) =~= Seq::empty());
    }

    fn on_row_start(&mut self)
        ensures
            final(self)@ == (LayoutView {
                rows: old(self)@.rows.push(Seq::empty()),
                ..old(self)@
            }),
    {
        let row: Vec<Vec<Span>> = Vec::new();
        proof {
            lemma_row_views_push(self.rows@, row);
            assert(cell_views(row@) =~= Seq::empty());
        }
        self.rows.push(row);
    }

    fn on_cell_end(&mut self)
        ensures
            final(self)@ == after_cell_end(old(self)@),
    {
        let n = self.rows.len();
        if n > 0 {
            let mut cell: Vec<Span> = Vec::new();
            std::mem::swap(&mut cell, &mut self.cell);
            let mut row: Vec<Vec<Span>> = Vec::new();
            let ghost rows_before = self.rows@;
            std::mem::swap(&mut row, &mut self.rows[n - 1]);
            proof {
                lemma_cell_views_push(row@, cell);
            }
            row.push(cell);
            self.rows.set(n - 1, row);
            assert(row_views(self.rows@) =~= row_views(rows_before).update(
                n - 1,
                row_views(rows_before).last().push(span_views(cell@)),
            ));
            assert(span_views(self.cell@) =~= Seq::empty());
        }
    }

    fn on_link_end(&mut self)
        ensures
            final(self)@ == after_link_end(old(self)@),
    {
        self.pop_style();
        if self.link_url.len() > 0 {
            let mut t: Vec<char> = Vec::new();
            t.push(' ');
            t.push('(');
            append(&mut t, &self.link_url);
            t.push(')');
            assert(t@ =~= seq![' ', '('] + self.link_url@ + seq![')']);
            self.push_styled(&t, fg_style(theme::LINE_NUMBER));
            let mut url: Vec<char> = Vec::new();
            std::mem::swap(&mut url, &mut self.link_url);
            assert(texts(self.link_urls@.push(url)) =~= texts(self.link_urls@).push(url@));
            self.link_urls.push(url);
        }
    }

    fn on_list_end(&mut self)
        ensures
            final(self)@ == after_list_end(old(self)@),
    {
        let _ = self.lists.pop();
        assert(self.lists@ =~= if old(self).lists@.len() > 0 {
            old(self).lists@.drop_last()
        } else {
            old(self).lists@
        });
        if self.lists.len() == 0 {
            self.push_blank_line();
        }
    }

    fn on_rule(&mut self, width: usize)
        ensures
            final(self)@ == after_rule(old(self)@, width as int),
    {
        let avail = if width > self.quote.len() {
            width - self.quote.len()
        } else {
            0
        };
        let mut spans = quote_spans(&self.quote, theme::quote_border_color());
        push_span(&mut spans, &rule_chars(avail), fg_style(theme::BORDER));
        let line = Line { spans };
        assert(line@ =~= quote_part(self@.quote, theme::quote_border_color()) + seq![
            styled(rule_text(avail as int), border_style()),
        ]);
        self.push_line(line);
        self.push_blank_line();
    }

    fn on_code(&mut self, code: &Vec<char>)
        ensures
            final(self)@ == after_code(old(self)@, code@),
    {
        let t = bracketed(' ', code, &one(' '));
        if self.in_table {
            push_span(&mut self.cell, &t, theme::code_style());
        } else {
            self.push_bq_prefix();
            self.push_styled(&t, theme::code_style());
        }
    }

    fn on_display_math(&mut self, text: &Vec<char>)
        ensures
            final(self)@ == ({
                let s1 = flushed(old(self)@);
                with_blank(LayoutView { lines: s1.lines + math_lines(text@, s1.quote), ..s1 })
            }),
    {
        self.flush_line();
        let more = math_block(text, &self.quote);
        push_lines(&mut self.lines, more);
        self.push_blank_line();
    }

    /// Takes in the next event of the document.
    pub fn step(&mut self, e: &MdEvent, width: usize, hl: &Highlighter)
        ensures
            final(self)@ == step(old(self)@, *e, width as int),
    {
        match e {
            MdEvent::StartHeading(level) => self.on_heading_start(*level),
            MdEvent::EndHeading(level) => self.on_heading_end(*level, width),
            MdEvent::StartStrong => {
                let style = compose_style(self.current(), theme::bold_style());
                self.push_style(style);
            },
            MdEvent::StartEmphasis => {
                let style = compose_style(self.current(), theme::italic_style());
                self.push_style(style);
            },
            MdEvent::StartStrikethrough => {
                let style = compose_style(
                    self.current(),
                    fg_style(theme::FG).add_modifier(Modifier::crossed_out()),
                );
                self.push_style(style);
            },
            MdEvent::EndStrong | MdEvent::EndEmphasis | MdEvent::EndStrikethrough => {
                self.pop_style();
            },
            MdEvent::StartLink(url) => {
                let style = compose_style(self.current(), theme::link_style());
                self.push_style(style);
                self.link_url = chars_of(url.as_str());
            },
            MdEvent::EndLink => self.on_link_end(),
            MdEvent::StartImage(url) => {
                self.image_url = chars_of(url.as_str());
                self.flush_line();
                self.push_style(fg_style(theme::FG));
            },
            MdEvent::EndImage => self.on_image_end(),
            MdEvent::StartCodeBlock(lang) => {
                self.in_code = true;
                self.code = Vec::new();
                self.code_lang = chars_of(lang.as_str());
            },
            MdEvent::EndCodeBlock => self.on_code_end(width, hl),
            MdEvent::StartBlockQuote => {
                self.quote.push('│');
                self.quote.push(' ');
                assert(self.quote@ =~= old(self).quote@ + seq!['│', ' ']);
            },
            MdEvent::EndBlockQuote => {
                let n = self.quote.len();
                self.quote.truncate(
                    if n >= 2 {
                        n - 2
                    } else {
                        0
                    },
                );
                assert(self.quote@ =~= quote_closed(old(self).quote@));
            },
            MdEvent::StartList(start) => {
                if self.lists.len() > 0 {
                    self.flush_line();
                }
                self.lists.push(*start);
            },
            MdEvent::EndList => self.on_list_end(),
            MdEvent::StartItem => self.on_item_start(),
            MdEvent::EndItem => self.flush_line(),
            MdEvent::StartTable(aligns) => {
                self.in_table = true;
                self.rows = Vec::new();
                self.header_count = 0;
                self.alignments = aligns.clone();
                assert(row_views(self.rows@) =~= Seq::empty());
            },
            MdEvent::EndTable => self.on_table_end(width),
            MdEvent::StartTableHead | MdEvent::StartTableRow => self.on_row_start(),
            MdEvent::EndTableHead => {
                self.header_count = self.rows.len();
            },
            MdEvent::StartTableCell => {
                self.cell = Vec::new();
                assert(span_views(self.cell@) =~= Seq::empty());
            },
            MdEvent::EndTableCell => self.on_cell_end(),
            MdEvent::StartFootnoteDefinition(label) => {
                self.push_bq_prefix();
                let mut tail: Vec<char> = Vec::new();
                tail.push(']');
                tail.push(':');
                tail.push(' ');
                let t = bracketed('[', &chars_of(label.as_str()), &tail);
                assert(t@ =~= seq!['['] + label@ + seq![']', ':', ' ']);
                self.push_styled(&t, fg_style(theme::BORDER));
            },
            MdEvent::EndFootnoteDefinition => self.flush_line(),
            MdEvent::EndDefinitionList => {
                let line = Line { spans: Vec::new() };
                assert(line@ =~= Seq::empty());
                self.push_line(line);
            },
            MdEvent::StartDefinitionTitle => self.push_style(theme::bold_style()),
            MdEvent::EndDefinitionTitle => {
                self.pop_style();
                self.flush_line();
            },
            MdEvent::StartDefinition => {
                self.push_bq_prefix();
                let mut t: Vec<char> = Vec::new();
                t.push(':');
                t.push(' ');
                t.push(' ');
                assert(t@ =~= seq![':', ' ', ' ']);
                self.push_styled(&t, fg_style(theme::BORDER));
            },
            MdEvent::EndDefinition => self.flush_line(),
            MdEvent::EndParagraph => {
                self.flush_line();
                self.push_blank_line();
            },
            MdEvent::Text(text) => self.on_text(&chars_of(text.as_str()), width),
            MdEvent::Code(code) => self.on_code(&chars_of(code.as_str())),
            MdEvent::SoftBreak | MdEvent::HardBreak => {
                if !self.in_table {
                    self.flush_line();
                }
            },
            MdEvent::FootnoteReference(label) => {
                self.push_bq_prefix();
                let t = bracketed('[', &chars_of(label.as_str()), &one(']'));
                self.push_styled(&t, theme::link_style());
            },
            MdEvent::TaskListMarker(checked) => {
                if *checked {
                    self.push_styled(&chars_of("[x] "), fg_style(theme::SUCCESS));
                } else {
                    self.push_styled(&chars_of("[ ] "), fg_style(theme::FG));
                }
            },
            MdEvent::InlineMath(text) => {
                self.push_bq_prefix();
                let converted = latex_chars(&chars_of(text.as_str()));
                self.push_styled(
                    &converted,
                    fg_style(theme::CODE).add_modifier(Modifier::italic()),
                );
            },
            MdEvent::DisplayMath(text) => self.on_display_math(&chars_of(text.as_str())),
            MdEvent::Rule => self.on_rule(width),
            MdEvent::StartParagraph
            | MdEvent::EndTableRow
            | MdEvent::StartDefinitionList
            | MdEvent::Other => {},
        }
    }

    /// Finishes the line in the making and hands out the document.
    pub fn finish(self) -> (r: RenderedMarkdown)
        ensures
            r@.lines == flushed(self@).lines,
            r@.link_urls == self@.link_urls,
            r@.images == self@.images,
    {
        let mut s = self;
        s.flush_line();
        let mut link_urls: Vec<String> = Vec::new();
        let mut i: usize = 0;
        while i < s.link_urls.len()
            invariant
                i <= s.link_urls.len(),
                link_urls@.len() == i,
                forall|k: int| 0 <= k < i ==> #[trigger] link_urls@[k]@ == s.link_urls@[k]@,
            decreases s.link_urls.len() - i,
        {
            link_urls.push(string_of(&s.link_urls[i]));
            i += 1;
        }
        assert(string_texts(link_urls@) =~= texts(s.link_urls@));
        RenderedMarkdown { text: Text { lines: s.lines }, link_urls, image_infos: s.images }
    }
}

/// Lays out the events of a document: the part of `render_markdown` that
/// follows the parser.
pub fn render_events(events: &Vec<MdEvent>, width: usize, hl: &Highlighter) -> (r: RenderedMarkdown)
    ensures
        r@ == rendered(events@, width as int),
{
    let mut layout = Layout::new();
    let mut k: usize = 0;
    while k < events.len()
        invariant
            k <= events.len(),
            layout@ == layout_after(events@, k as int, width as int),
        decreases events.len() - k,
    {
        layout.step(&events[k], width, hl);
        k += 1;
    }
    layout.finish()
}

/// What `render_markdown` makes of `content` at `width`.
pub open spec fn layout(content: Seq<char>, width: int) -> RenderedView {
    rendered(markdown_events(content, preview_extensions()), width)
}

/// Renders markdown for a terminal `width` columns wide: the styled lines,
/// the link destinations in document order, and the place of every image.
pub fn render_markdown(content: &str, width: usize, hl: &Highlighter) -> (r: RenderedMarkdown)
    ensures
        r@ == layout(content@, width as int),
{
    let events = parse_markdown(content);
    render_events(&events, width, hl)
}

proof fn lemma_table_lines_count(
    rows: Seq<Seq<Seq<SpanView>>>,
    k: int,
    header_count: int,
    widths: Seq<usize>,
    aligns: Seq<ColumnAlign>,
    quote: Seq<char>,
)
    requires
        0 <= k,
    ensures
        table_lines_upto(rows, k, header_count, widths, aligns, quote).len() == k + if 1
            <= header_count <= k {
            1int
        } else {
            0int
        },
    decreases k,
{
    if k > 0 {
        lemma_table_lines_count(rows, k - 1, header_count, widths, aligns, quote);
    }
}

/// The number of lines of a table does not depend on the width: a table
/// with cells takes one line for each row and one more for the rule after
/// its header.
pub proof fn lemma_table_height_ignores_width(
    rows: Seq<Seq<Seq<SpanView>>>,
    header_count: int,
    aligns: Seq<ColumnAlign>,
    width: int,
    other_width: int,
    quote: Seq<char>,
)
    ensures
        table_lines(rows, header_count, aligns, width, quote).len() == table_lines(
            rows,
            header_count,
            aligns,
            other_width,
            quote,
        ).len(),
        rows.len() > 0 && table_columns(rows) > 0 ==> table_lines(
            rows,
            header_count,
            aligns,
            width,
            quote,
        ).len() == rows.len() + if 1 <= header_count <= rows.len() {
            1int
        } else {
            0int
        },
{
    lemma_table_lines_count(
        rows,
        rows.len() as int,
        header_count,
        table_widths(rows, width, quote.len() as int),
        aligns,
        quote,
    );
    lemma_table_lines_count(
        rows,
        rows.len() as int,
        header_count,
        table_widths(rows, other_width, quote.len() as int),
        aligns,
        quote,
    );
}

proof fn lemma_column_width_minimum(rows: Seq<Seq<Seq<SpanView>>>, j: int)
    ensures
        column_width(rows, j) >= 3,
    decreases rows.len(),
{
    if rows.len() > 0 {
        lemma_column_width_minimum(rows.drop_last(), j);
    }
}

/// Every column of a table is at least three columns wide, however narrow
/// the line is.
pub proof fn lemma_table_columns_keep_minimum(
    rows: Seq<Seq<Seq<SpanView>>>,
    width: int,
    quote_len: int,
    j: int,
)
    requires
        0 <= j < table_columns(rows),
        width <= usize::MAX,
        0 <= quote_len,
    ensures
        table_widths(rows, width, quote_len)[j] >= 3,
{
    let natural = natural_columns(rows);
    let available = table_available(width, quote_len, table_columns(rows) as int);
    assert forall|k: int| 0 <= k < natural.len() implies natural[k] >= 3 by {
        lemma_column_width_minimum(rows, k);
    }
    crate::table_format::lemma_widths_keep_minimum(natural, available, j);
    crate::table_format::lemma_negotiated_width_bounds(natural, available, j);
    let w = crate::table_format::negotiated_width(natural, available, j);
    assert(0 <= available <= usize::MAX);
    assert(3 <= w <= usize::MAX);
    assert(table_widths(rows, width, quote_len)[j] == w as usize);
}

/// The columns of a table take all the room that the line has for cell
/// content, where that leaves three columns for each of them: their widths
/// add up to it, so that no row is wider or narrower than the line.
pub proof fn lemma_table_columns_fill(rows: Seq<Seq<Seq<SpanView>>>, width: int, quote_len: int)
    requires
        table_columns(rows) > 0,
        width <= usize::MAX,
        0 <= quote_len,
        table_available(width, quote_len, table_columns(rows) as int) >= 3 * table_columns(rows),
    ensures
        total(table_widths(rows, width, quote_len)) == table_available(
            width,
            quote_len,
            table_columns(rows) as int,
        ),
{
    let natural = natural_columns(rows);
    let available = table_available(width, quote_len, table_columns(rows) as int);
    let widths = table_widths(rows, width, quote_len);
    lemma_column_width_minimum(rows, 0);
    crate::table_format::lemma_total_covers(natural, 0);
    assert forall|i: int| 0 <= i < natural.len() implies widths[i] as int
        == crate::table_format::negotiated_width(natural, available, i) by {
        crate::table_format::lemma_negotiated_width_bounds(natural, available, i);
        let w = crate::table_format::negotiated_width(natural, available, i);
        assert(0 <= available <= usize::MAX);
        assert(0 <= w <= usize::MAX);
        assert(widths[i] == w as usize);
    }
    crate::table_format::lemma_negotiated_widths_fill(natural, available, widths);
}

/// Whether the event leaves the table that it stands in open and lays
/// nothing out by the width: any event but the end of a table, of a
/// heading or of a code block, and a rule.
pub open spec fn is_table_part(e: MdEvent) -> bool {
    !(e is EndTable || e is EndHeading || e is EndCodeBlock || e is Rule)
}

/// Whether the events are those of a document that is one table.
pub open spec fn is_one_table(events: Seq<MdEvent>) -> bool {
    &&& events.len() >= 2
    &&& events[0] is StartTable
    &&& events.last() is EndTable
    &&& forall|i: int| 0 < i < events.len() - 1 ==> is_table_part(#[trigger] events[i])
}

proof fn lemma_table_state(events: Seq<MdEvent>, k: int, width: int, other_width: int)
    requires
        is_one_table(events),
        1 <= k < events.len(),
    ensures
        layout_after(events, k, width) == layout_after(events, k, other_width),
        layout_after(events, k, width).in_table,
    decreases k,
{
    if k == 1 {
        assert(layout_after(events, 0, width) == initial_layout());
        assert(layout_after(events, 0, other_width) == initial_layout());
    } else {
        lemma_table_state(events, k - 1, width, other_width);
        assert(is_table_part(events[k - 1]));
    }
}

/// The number of lines of a document that is one table does not depend on
/// the width that it is laid out in.
pub proof fn lemma_table_document_height(events: Seq<MdEvent>, width: int, other_width: int)
    requires
        is_one_table(events),
    ensures
        rendered(events, width).lines.len() == rendered(events, other_width).lines.len(),
{
    let n = events.len() as int;
    lemma_table_state(events, n - 1, width, other_width);
    let s = layout_after(events, n - 1, width);
    lemma_table_height_ignores_width(
        s.rows,
        s.header_count,
        s.alignments,
        width,
        other_width,
        s.quote,
    );
    assert(layout_after(events, n, width) == step(s, events[n - 1], width));
    assert(layout_after(events, n, other_width) == step(s, events[n - 1], other_width));
}

/// Resizing changes the column widths of a table, never its row count: the
/// layout of a text that parses to one table has the same number of lines
/// at every width.
pub proof fn lemma_table_layout_height(content: Seq<char>, width: int, other_width: int)
    requires
        is_one_table(markdown_events(content, preview_extensions())),
    ensures
        layout(content, width).lines.len() == layout(content, other_width).lines.len(),
{
    lemma_table_document_height(
        markdown_events(content, preview_extensions()),
        width,
        other_width,
    );
}

} // verus!
