//! Code fences: where they are in a buffer, and how their content is
//! colored and boxed for the preview.

use vstd::prelude::*;
use crate::style::{line_views, span_views, styled, Color, Line, Span, SpanView, Style};
use crate::style_ext::lemma_span_views_push;
use crate::text::{
    append, chars_of, has_prefix, last_index_before, lemma_last_index_before, lines_of,
    match_at, repeat_char, repeated, rfind_char, same_text, slice, split_lines, string_of,
    texts, trim, trim_start, trimmed, trimmed_start,
};
use crate::theme;

verus! {

/// `syntect::parsing::SyntaxSet`, carried through as an opaque value.
#[verifier::external_type_specification]
#[verifier::external_body]
pub struct ExSyntaxSet(syntect::parsing::SyntaxSet);

/// `syntect::highlighting::ThemeSet`, carried through as an opaque value.
#[verifier::external_type_specification]
#[verifier::external_body]
pub struct ExThemeSet(syntect::highlighting::ThemeSet);

/// The syntax definitions and color themes that code is highlighted with.
/// The only way to get one is `Highlighter::load`, so every value holds the
/// same built-in sets.
pub struct Highlighter {
    syntaxes: syntect::parsing::SyntaxSet,
    themes: syntect::highlighting::ThemeSet,
}

/// `SyntaxSet::load_defaults_newlines`: the syntax definitions that ship with
/// the highlighting crate.
#[verifier::external_body]
fn load_syntaxes() -> syntect::parsing::SyntaxSet {
    syntect::parsing::SyntaxSet::load_defaults_newlines()
}

/// `ThemeSet::load_defaults`: the themes that ship with the highlighting
/// crate.
#[verifier::external_body]
fn load_themes() -> syntect::highlighting::ThemeSet {
    syntect::highlighting::ThemeSet::load_defaults()
}

impl Highlighter {
    /// Loads the built-in syntax definitions and themes.
    pub fn load() -> Highlighter {
        Highlighter { syntaxes: load_syntaxes(), themes: load_themes() }
    }
}

/// A piece of a code line in one foreground color.
#[derive(Debug)]
pub struct ColorRun {
    pub r: u8,
    pub g: u8,
    pub b: u8,
    pub text: String,
}

/// A `ColorRun` with its text as a sequence of characters.
pub struct ColorRunView {
    pub r: u8,
    pub g: u8,
    pub b: u8,
    pub text: Seq<char>,
}

impl View for ColorRun {
    type V = ColorRunView;

    open spec fn view(&self) -> ColorRunView {
        ColorRunView { r: self.r, g: self.g, b: self.b, text: self.text@ }
    }
}

impl ColorRun {
    /// A run of `text` in the color with the given parts.
    pub fn new(r: u8, g: u8, b: u8, text: &str) -> (run: ColorRun)
        ensures
            run@ == (ColorRunView { r, g, b, text: text@ }),
    {
        ColorRun { r, g, b, text: string_of(&chars_of(text)) }
    }
}

/// One line of code as the highlighter returned it: colored runs, or the
/// line itself where the highlighter failed on it. Either way the line
/// ending is still there.
#[derive(Debug)]
pub enum HighlightedLine {
    Colored(Vec<ColorRun>),
    Plain(String),
}

/// A `HighlightedLine` with its texts as sequences of characters.
pub enum HighlightedLineView {
    Colored(Seq<ColorRunView>),
    Plain(Seq<char>),
}

/// The views of a list of runs.
pub open spec fn run_views(v: Seq<ColorRun>) -> Seq<ColorRunView> {
    Seq::new(v.len(), |i: int| v[i]@)
}

impl View for HighlightedLine {
    type V = HighlightedLineView;

    open spec fn view(&self) -> HighlightedLineView {
        match self {
            HighlightedLine::Colored(runs) => HighlightedLineView::Colored(run_views(runs@)),
            HighlightedLine::Plain(text) => HighlightedLineView::Plain(text@),
        }
    }
}

/// The views of a list of highlighted lines.
pub open spec fn highlighted_views(v: Seq<HighlightedLine>) -> Seq<HighlightedLineView> {
    Seq::new(v.len(), |i: int| v[i]@)
}

/// Whether the built-in syntax set has a syntax for the token, by file
/// extension or by name.
pub uninterp spec fn syntax_known(token: Seq<char>) -> bool;

/// The lines of `code`, colored by the syntax for `token`, which the
/// built-in set knows, or as plain text where `token` is `None`, in the
/// theme `base16-ocean.dark`.
pub uninterp spec fn syntax_colors(token: Option<Seq<char>>, code: Seq<char>) -> Seq<
    HighlightedLineView,
>;

/// `SyntaxSet::find_syntax_by_token`: whether the built-in set has a syntax
/// for the token.
#[verifier::external_body]
fn knows_token(hl: &Highlighter, token: &str) -> (b: bool)
    ensures
        b == syntax_known(token@),
{
    hl.syntaxes.find_syntax_by_token(token).is_some()
}

/// The name of the theme that code is colored in.
pub fn code_theme() -> (name: &'static str)
    ensures
        name@ == "base16-ocean.dark"@,
{
    "base16-ocean.dark"
}

/// `HighlightLines::highlight_line` on each line of `LinesWithEndings`: the
/// colored runs of every line of `code`, for the syntax that
/// `find_syntax_by_token` gives for `token`. The token has to be one that
/// the set knows, and the theme one of the built-in set. The result depends
/// on `token` and `code` alone, since the sets are the built-in ones.
#[verifier::external_body]
fn highlight_known(hl: &Highlighter, token: &str, theme: &str, code: &str) -> (r: Vec<
    HighlightedLine,
>)
    requires
        syntax_known(token@),
        theme@ == "base16-ocean.dark"@,
    ensures
        highlighted_views(r@) == syntax_colors(Some(token@), code@),
{
    let ss = &hl.syntaxes;
    let syntax = ss.find_syntax_by_token(token).unwrap();
    let mut h = syntect::easy::HighlightLines::new(syntax, &hl.themes.themes[theme]);
    let run = |p: &(syntect::highlighting::Style, &str)|
        ColorRun::new(p.0.foreground.r, p.0.foreground.g, p.0.foreground.b, p.1);
    syntect::util::LinesWithEndings::from(code).map(
        |l| match h.highlight_line(l, ss) {
            Ok(regions) => HighlightedLine::Colored(regions.iter().map(run).collect()),
            Err(_) => HighlightedLine::Plain(l.to_string()),
        },
    ).collect()
}

/// `HighlightLines::highlight_line` on each line of `LinesWithEndings`: the
/// colored runs of every line of `code`, for the syntax that
/// `find_syntax_plain_text` gives. The theme has to be one of the built-in
/// set.
#[verifier::external_body]
fn highlight_plain(hl: &Highlighter, theme: &str, code: &str) -> (r: Vec<HighlightedLine>)
    requires
        theme@ == "base16-ocean.dark"@,
    ensures
        highlighted_views(r@) == syntax_colors(None, code@),
{
    let ss = &hl.syntaxes;
    let syntax = ss.find_syntax_plain_text();
    let mut h = syntect::easy::HighlightLines::new(syntax, &hl.themes.themes[theme]);
    let run = |p: &(syntect::highlighting::Style, &str)|
        ColorRun::new(p.0.foreground.r, p.0.foreground.g, p.0.foreground.b, p.1);
    syntect::util::LinesWithEndings::from(code).map(
        |l| match h.highlight_line(l, ss) {
            Ok(regions) => HighlightedLine::Colored(regions.iter().map(run).collect()),
            Err(_) => HighlightedLine::Plain(l.to_string()),
        },
    ).collect()
}

/// Colors the lines of `code` for a token that the set knows, or as plain
/// text without one.
fn highlight_with(hl: &Highlighter, token: Option<&str>, code: &str) -> (r: Vec<HighlightedLine>)
    requires
        match token {
            Some(t) => syntax_known(t@),
            None => true,
        },
    ensures
        highlighted_views(r@) == syntax_colors(
            match token {
                Some(t) => Some(t@),
                None => None,
            },
            code@,
        ),
{
    match token {
        Some(t) => highlight_known(hl, t, code_theme(), code),
        None => highlight_plain(hl, code_theme(), code),
    }
}

/// The position after the last character before `j` that is no line feed.
pub open spec fn feed_begin(s: Seq<char>, j: int) -> int
    decreases j,
{
    if 0 < j <= s.len() && s[j - 1] == '\n' {
        feed_begin(s, j - 1)
    } else {
        j
    }
}

/// `s` without the line feeds at its end.
pub open spec fn without_feeds(s: Seq<char>) -> Seq<char> {
    s.subrange(0, feed_begin(s, s.len() as int))
}

fn strip_feeds(s: &Vec<char>) -> (r: Vec<char>)
    ensures
        r@ == without_feeds(s@),
{
    let mut j = s.len();
    while j > 0 && s[j - 1] == '\n'
        invariant
            j <= s.len(),
            feed_begin(s@, j as int) == feed_begin(s@, s.len() as int),
        decreases j,
    {
        j -= 1;
    }
    slice(s, 0, j)
}

/// The background of a code block.
pub open spec fn code_ground() -> Style {
    Style::plain().with_bg(theme::code_bg_color())
}

/// The style of code that was not colored.
pub open spec fn plain_code_style() -> Style {
    Style::plain().with_fg(theme::CODE).with_bg(theme::code_bg_color())
}

/// The style of the box around a code block.
pub open spec fn code_border_style() -> Style {
    Style::plain().with_fg(theme::BORDER).with_bg(theme::code_bg_color())
}

/// The style of a colored run.
pub open spec fn run_style(run: ColorRunView) -> Style {
    Style::plain().with_fg(Color::Rgb(run.r, run.g, run.b)).with_bg(theme::code_bg_color())
}

/// The text of the runs, one after the other.
pub open spec fn runs_text(runs: Seq<ColorRunView>) -> Seq<char>
    decreases runs.len(),
{
    if runs.len() == 0 {
        Seq::empty()
    } else {
        runs_text(runs.drop_last()) + runs.last().text
    }
}

/// The spans for the part of the runs between the positions `a` and `b`
/// of their text: each run in its color, cut at the two positions.
pub open spec fn clipped_spans(runs: Seq<ColorRunView>, a: int, b: int) -> Seq<SpanView>
    decreases runs.len(),
{
    if runs.len() == 0 {
        Seq::empty()
    } else {
        let start = runs_text(runs.drop_last()).len() as int;
        let end = start + runs.last().text.len();
        let lo = if a > start {
            a
        } else {
            start
        };
        let hi = if b < end {
            b
        } else {
            end
        };
        clipped_spans(runs.drop_last(), a, b) + if lo < hi {
            seq![styled(runs.last().text.subrange(lo - start, hi - start), run_style(runs.last()))]
        } else {
            Seq::empty()
        }
    }
}

/// The spaces that fill a line of `cols` characters up to `width`.
pub open spec fn padding(cols: int, width: int, style: Style) -> Seq<SpanView> {
    if cols < width {
        seq![styled(repeated(' ', (width - cols) as nat), style)]
    } else {
        Seq::empty()
    }
}

/// Where a text that is too long for `avail` columns is cut: after the last
/// space within the columns, or at the columns where that stretch has no
/// space after its first character. A text that fits is not cut.
pub open spec fn code_cut(text: Seq<char>, avail: int) -> int {
    if text.len() <= avail {
        text.len() as int
    } else if last_index_before(text, ' ', avail) > 0 {
        last_index_before(text, ' ', avail) + 1
    } else {
        avail
    }
}

/// The ends of the rows that the text from `start` on is wrapped into, for
/// rows of `avail` columns.
pub open spec fn cuts_from(text: Seq<char>, start: int, avail: int) -> Seq<int>
    decreases text.len() - start,
{
    if start < 0 || start >= text.len() || avail <= 0 {
        Seq::empty()
    } else {
        proof {
            if avail < text.len() - start {
                lemma_last_index_before(text.subrange(start, text.len() as int), ' ', avail);
            }
        }
        let end = start + code_cut(text.subrange(start, text.len() as int), avail);
        seq![end] + cuts_from(text, end, avail)
    }
}

/// Where row `i` starts, for rows that end at `cuts`.
pub open spec fn row_start(cuts: Seq<int>, i: int) -> int {
    if i <= 0 {
        0
    } else {
        cuts[i - 1]
    }
}

/// Whether a code line of `cols` characters goes on one row: it fits beside
/// the margin, or the width leaves no room beside the margin.
pub open spec fn on_one_row(cols: int, width: int) -> bool {
    width <= 2 || 2 + cols <= width
}

/// One row of a colored code line: the margin of two spaces, the part of
/// the runs between `a` and `b`, and the fill.
pub open spec fn colored_row(runs: Seq<ColorRunView>, a: int, b: int, width: int) -> Seq<SpanView> {
    seq![styled(seq![' ', ' '], code_ground())] + clipped_spans(runs, a, b) + padding(
        2 + (b - a),
        width,
        code_ground(),
    )
}

/// One row of a code line that was not colored: the text after two spaces,
/// filled up.
pub open spec fn plain_code_line(text: Seq<char>, width: int) -> Seq<SpanView> {
    seq![styled(seq![' ', ' '] + text, plain_code_style())] + padding(
        2 + text.len() as int,
        width,
        code_ground(),
    )
}

/// The rows of a colored code line: one row where the line fits, else the
/// line wrapped at word boundaries to the width beside the margin.
pub open spec fn colored_rows(runs: Seq<ColorRunView>, width: int) -> Seq<Seq<SpanView>> {
    let text = runs_text(runs);
    let cuts = cuts_from(text, 0, width - 2);
    if on_one_row(text.len() as int, width) {
        seq![colored_row(runs, 0, text.len() as int, width)]
    } else {
        Seq::new(cuts.len(), |i: int| colored_row(runs, row_start(cuts, i), cuts[i], width))
    }
}

/// The rows of a code line that was not colored.
pub open spec fn plain_rows(text: Seq<char>, width: int) -> Seq<Seq<SpanView>> {
    let cuts = cuts_from(text, 0, width - 2);
    if on_one_row(text.len() as int, width) {
        seq![plain_code_line(text, width)]
    } else {
        Seq::new(
            cuts.len(),
            |i: int| plain_code_line(text.subrange(row_start(cuts, i), cuts[i]), width),
        )
    }
}

/// The rows of a code line: its visible runs where it was colored, else its
/// text without the line ending.
pub open spec fn code_rows(line: HighlightedLineView, width: int) -> Seq<Seq<SpanView>> {
    match line {
        HighlightedLineView::Colored(runs) => colored_rows(shown_runs(runs), width),
        HighlightedLineView::Plain(text) => plain_rows(without_feeds(text), width),
    }
}

/// The rows of the first `k` highlighted lines.
pub open spec fn rows_upto(lines: Seq<HighlightedLineView>, k: int, width: int) -> Seq<
    Seq<SpanView>,
>
    decreases k,
{
    if k <= 0 {
        Seq::empty()
    } else {
        rows_upto(lines, k - 1, width) + code_rows(lines[k - 1], width)
    }
}

/// The rows of the first `k` lines of uncolored code.
pub open spec fn plain_rows_upto(lines: Seq<Seq<char>>, k: int, width: int) -> Seq<Seq<SpanView>>
    decreases k,
{
    if k <= 0 {
        Seq::empty()
    } else {
        plain_rows_upto(lines, k - 1, width) + plain_rows(lines[k - 1], width)
    }
}

/// The lines inside the box. Where the highlighter returned no line for code
/// that is not empty, the lines of the code, uncolored.
pub open spec fn code_body(lines: Seq<HighlightedLineView>, code: Seq<char>, width: int) -> Seq<
    Seq<SpanView>,
> {
    if lines.len() == 0 && code.len() > 0 {
        plain_rows_upto(lines_of(code), lines_of(code).len() as int, width)
    } else {
        rows_upto(lines, lines.len() as int, width)
    }
}

/// The width inside the box.
pub open spec fn inner_width(width: int) -> int {
    if width > 2 {
        width - 2
    } else {
        0
    }
}

/// The label on the top border: the language between two spaces.
pub open spec fn language_label(lang: Seq<char>) -> Seq<char> {
    if lang.len() == 0 {
        Seq::empty()
    } else {
        seq![' '] + lang + seq![' ']
    }
}

/// The top border, with the language label.
pub open spec fn top_border(lang: Seq<char>, width: int) -> Seq<char> {
    let label = language_label(lang);
    let fill = if inner_width(width) > 1 + label.len() {
        inner_width(width) - (1 + label.len())
    } else {
        0
    };
    seq!['┌', '─'] + label + repeated('─', fill as nat) + seq!['┐']
}

/// The bottom border.
pub open spec fn bottom_border(width: int) -> Seq<char> {
    seq!['└'] + repeated('─', inner_width(width) as nat) + seq!['┘']
}

/// The code block for the highlighted lines: a top border with the language
/// label, the code lines, and a bottom border.
pub open spec fn boxed_code(
    lines: Seq<HighlightedLineView>,
    code: Seq<char>,
    lang: Seq<char>,
    width: int,
) -> Seq<Seq<SpanView>> {
    seq![seq![styled(top_border(lang, width), code_border_style())]] + code_body(
        lines,
        code,
        width,
    ) + seq![seq![styled(bottom_border(width), code_border_style())]]
}

fn two_spaces() -> (r: Vec<char>)
    ensures
        r@ == seq![' ', ' '],
{
    let mut r: Vec<char> = Vec::new();
    r.push(' ');
    r.push(' ');
    r
}

fn ground_style() -> (s: Style)
    ensures
        s == code_ground(),
{
    Style::new().bg(theme::code_bg_color())
}

/// Pads a span list with trailing spaces so that the line fills `width`.
fn pad_to_width(spans: &mut Vec<Span>, current_cols: u128, width: usize, style: Style)
    ensures
        span_views(final(spans)@) == span_views(old(spans)@) + padding(
            current_cols as int,
            width as int,
            style,
        ),
{
    if current_cols < width as u128 {
        let fill = Span::styled(&repeat_char(' ', width - current_cols as usize), style);
        proof {
            lemma_span_views_push(spans@, fill);
        }
        spans.push(fill);
    } else {
        assert(span_views(spans@) + Seq::<SpanView>::empty() =~= span_views(spans@));
    }
}

fn plain_line(text: &Vec<char>, width: usize) -> (l: Line)
    ensures
        l@ == plain_code_line(text@, width as int),
{
    let mut t = two_spaces();
    append(&mut t, text);
    let mut spans: Vec<Span> = Vec::new();
    spans.push(Span::styled(&t, Style::new().fg(theme::CODE).bg(theme::code_bg_color())));
    assert(span_views(spans@) =~= seq![styled(seq![' ', ' '] + text@, plain_code_style())]);
    pad_to_width(&mut spans, text.len() as u128 + 2, width, ground_style());
    Line { spans }
}

/// The ends of the rows that `text` is wrapped into.
fn cut_positions(text: &Vec<char>, avail: usize) -> (cuts: Vec<usize>)
    ensures
        cuts@.len() == cuts_from(text@, 0, avail as int).len(),
        forall|i: int|
            0 <= i < cuts@.len() ==> cuts@[i] as int == #[trigger] cuts_from(
                text@,
                0,
                avail as int,
            )[i],
        forall|i: int|
            0 <= i < cuts@.len() ==> row_start(cuts_from(text@, 0, avail as int), i)
                < #[trigger] cuts@[i] <= text@.len(),
{
    let mut cuts: Vec<usize> = Vec::new();
    let ghost all = cuts_from(text@, 0, avail as int);
    let mut start: usize = 0;
    if avail == 0 {
        return cuts;
    }
    while start < text.len()
        invariant
            start <= text.len(),
            avail > 0,
            all == cuts_from(text@, 0, avail as int),
            cuts@.len() + cuts_from(text@, start as int, avail as int).len() == all.len(),
            forall|i: int| 0 <= i < cuts@.len() ==> cuts@[i] as int == #[trigger] all[i],
            forall|i: int|
                0 <= i < cuts_from(text@, start as int, avail as int).len() ==> all[cuts@.len()
                    + i] == #[trigger] cuts_from(text@, start as int, avail as int)[i],
            row_start(all, cuts@.len() as int) == start,
            forall|i: int|
                0 <= i < cuts@.len() ==> row_start(all, i) < #[trigger] cuts@[i] <= text@.len(),
        decreases text.len() - start,
    {
        let rest = slice(text, start, text.len());
        let step = if rest.len() <= avail {
            rest.len()
        } else {
            match rfind_char(&rest, ' ', avail) {
                Some(p) => if p > 0 {
                    p + 1
                } else {
                    avail
                },
                None => avail,
            }
        };
        assert(step as int == code_cut(rest@, avail as int));
        let end = start + step;
        let ghost tail = cuts_from(text@, start as int, avail as int);
        let ghost next = cuts_from(text@, end as int, avail as int);
        assert(tail =~= seq![end as int] + next);
        assert(all[cuts@.len() as int] == tail[0]);
        assert forall|i: int| 0 <= i < next.len() implies all[cuts@.len() + 1 + i]
            == #[trigger] next[i] by {
            assert(tail[i + 1] == next[i]);
        }
        cuts.push(end);
        start = end;
    }
    cuts
}

/// The sum of the lengths of the texts of the first runs.
fn piece_ends(runs: &Vec<ColorRun>) -> (ends: Vec<u128>)
    ensures
        ends@.len() == runs@.len(),
        forall|k: int| 0 <= k < runs@.len() ==> #[trigger] ends@[k] <= (k + 1) * usize::MAX,
        forall|k: int|
            0 <= k < runs@.len() ==> #[trigger] ends@[k] as int == runs_text(
                run_views(runs@).take(k + 1),
            ).len(),
{
    let mut ends: Vec<u128> = Vec::new();
    let mut total: u128 = 0;
    let mut k: usize = 0;
    assert(run_views(runs@).take(0) =~= Seq::<ColorRunView>::empty());
    while k < runs.len()
        invariant
            k <= runs.len(),
            ends@.len() == k,
            total == runs_text(run_views(runs@).take(k as int)).len(),
            total <= k * usize::MAX,
            forall|j: int| 0 <= j < k ==> #[trigger] ends@[j] <= (j + 1) * usize::MAX,
            forall|j: int|
                0 <= j < k ==> #[trigger] ends@[j] as int == runs_text(
                    run_views(runs@).take(j + 1),
                ).len(),
        decreases runs.len() - k,
    {
        proof {
            let t = run_views(runs@).take(k + 1);
            assert(t.drop_last() =~= run_views(runs@).take(k as int));
            assert(t.last() == runs@[k as int]@);
            assert((k + 1) * usize::MAX == k * usize::MAX + usize::MAX) by (nonlinear_arith);
            assert(k * usize::MAX <= usize::MAX * usize::MAX) by (nonlinear_arith)
                requires
                    k <= usize::MAX,
            ;
        }
        total = total + chars_of(runs[k].text.as_str()).len() as u128;
        ends.push(total);
        k += 1;
    }
    ends
}

/// One row of a colored line.
fn colored_line(runs: &Vec<ColorRun>, ends: &Vec<u128>, a: u128, b: u128, width: usize) -> (l: Line)
    requires
        a <= b,
        b + 2 <= u128::MAX,
        ends@.len() == runs@.len(),
        forall|k: int|
            0 <= k < runs@.len() ==> #[trigger] ends@[k] as int == runs_text(
                run_views(runs@).take(k + 1),
            ).len(),
    ensures
        l@ == colored_row(run_views(runs@), a as int, b as int, width as int),
{
    let mut spans: Vec<Span> = Vec::new();
    spans.push(Span::styled(&two_spaces(), ground_style()));
    let ghost first = seq![styled(seq![' ', ' '], code_ground())];
    let ghost rv = run_views(runs@);
    assert(span_views(spans@) =~= first);
    assert(rv.take(0) =~= Seq::<ColorRunView>::empty());
    assert(first + clipped_spans(rv.take(0), a as int, b as int) =~= first);
    let mut k: usize = 0;
    while k < runs.len()
        invariant
            k <= runs.len(),
            a <= b,
            rv == run_views(runs@),
            ends@.len() == runs@.len(),
            forall|j: int|
                0 <= j < runs@.len() ==> #[trigger] ends@[j] as int == runs_text(
                    rv.take(j + 1),
                ).len(),
            span_views(spans@) == first + clipped_spans(rv.take(k as int), a as int, b as int),
        decreases runs.len() - k,
    {
        let run = &runs[k];
        let text = chars_of(run.text.as_str());
        let ghost before = span_views(spans@);
        proof {
            let t = rv.take(k + 1);
            assert(t.drop_last() =~= rv.take(k as int));
            assert(t.last() == run@);
            if k > 0 {
                assert(ends@[k - 1] as int == runs_text(rv.take(k as int)).len());
            } else {
                assert(rv.take(0) =~= Seq::<ColorRunView>::empty());
            }
        }
        let end: u128 = ends[k];
        let start: u128 = end - text.len() as u128;
        let lo: u128 = if a > start {
            a
        } else {
            start
        };
        let hi: u128 = if b < end {
            b
        } else {
            end
        };
        if lo < hi {
            let piece = slice(&text, (lo - start) as usize, (hi - start) as usize);
            let span = Span::styled(
                &piece,
                Style::new().fg(Color::Rgb(run.r, run.g, run.b)).bg(theme::code_bg_color()),
            );
            proof {
                lemma_span_views_push(spans@, span);
            }
            spans.push(span);
        }
        assert(span_views(spans@) =~= first + clipped_spans(rv.take(k + 1), a as int, b as int));
        k += 1;
    }
    assert(rv.take(runs.len() as int) =~= rv);
    pad_to_width(&mut spans, (b - a) + 2, width, ground_style());
    Line { spans }
}

fn push_rows(out: &mut Vec<Line>, rows: Vec<Line>)
    ensures
        line_views(final(out)@) == line_views(old(out)@) + line_views(rows@),
{
    let mut rows = rows;
    let ghost added = line_views(rows@);
    out.append(&mut rows);
    assert(line_views(out@) =~= line_views(old(out)@) + added);
}

/// The rows of a line of uncolored code.
fn plain_lines(text: &Vec<char>, width: usize) -> (r: Vec<Line>)
    ensures
        line_views(r@) == plain_rows(text@, width as int),
{
    let mut r: Vec<Line> = Vec::new();
    if width <= 2 || text.len() <= width - 2 {
        r.push(plain_line(text, width));
        assert(line_views(r@) =~= seq![plain_code_line(text@, width as int)]);
        return r;
    }
    let cuts = cut_positions(text, width - 2);
    let ghost all = cuts_from(text@, 0, width - 2);
    let mut i: usize = 0;
    let mut start: usize = 0;
    while i < cuts.len()
        invariant
            i <= cuts.len(),
            width > 2,
            all == cuts_from(text@, 0, width - 2),
            cuts@.len() == all.len(),
            forall|k: int| 0 <= k < cuts@.len() ==> cuts@[k] as int == #[trigger] all[k],
            forall|k: int|
                0 <= k < cuts@.len() ==> row_start(all, k) < #[trigger] cuts@[k] <= text@.len(),
            start == row_start(all, i as int),
            r@.len() == i,
            forall|k: int|
                0 <= k < i ==> #[trigger] r@[k]@ == plain_code_line(
                    text@.subrange(row_start(all, k), all[k]),
                    width as int,
                ),
        decreases cuts.len() - i,
    {
        let end = cuts[i];
        assert(all[i as int] == end);
        r.push(plain_line(&slice(text, start, end), width));
        start = end;
        i += 1;
    }
    assert(line_views(r@) =~= plain_rows(text@, width as int));
    r
}

/// The rows of a colored code line, given its visible runs.
fn colored_lines(runs: &Vec<ColorRun>, width: usize) -> (r: Vec<Line>)
    ensures
        line_views(r@) == colored_rows(run_views(runs@), width as int),
{
    let ends = piece_ends(runs);
    let ghost rv = run_views(runs@);
    let total: u128 = if runs.len() > 0 {
        assert(rv.take(runs.len() as int) =~= rv);
        ends[runs.len() - 1]
    } else {
        0
    };
    assert(total == runs_text(rv).len());
    assert(total <= usize::MAX * usize::MAX) by (nonlinear_arith)
        requires
            runs.len() > 0 ==> total <= runs.len() * usize::MAX,
            runs.len() == 0 ==> total == 0,
            runs.len() <= usize::MAX,
    ;
    let mut r: Vec<Line> = Vec::new();
    if width <= 2 || total + 2 <= width as u128 {
        r.push(colored_line(runs, &ends, 0, total, width));
        assert(line_views(r@) =~= seq![colored_row(rv, 0, total as int, width as int)]);
        return r;
    }
    let mut text: Vec<char> = Vec::new();
    let mut k: usize = 0;
    assert(rv.take(0) =~= Seq::<ColorRunView>::empty());
    while k < runs.len()
        invariant
            k <= runs.len(),
            rv == run_views(runs@),
            text@ == runs_text(rv.take(k as int)),
        decreases runs.len() - k,
    {
        proof {
            let t = rv.take(k + 1);
            assert(t.drop_last() =~= rv.take(k as int));
            assert(t.last() == runs@[k as int]@);
        }
        append(&mut text, &chars_of(runs[k].text.as_str()));
        k += 1;
    }
    assert(rv.take(runs.len() as int) =~= rv);
    let cuts = cut_positions(&text, width - 2);
    let ghost all = cuts_from(text@, 0, width - 2);
    let mut i: usize = 0;
    let mut start: usize = 0;
    while i < cuts.len()
        invariant
            i <= cuts.len(),
            rv == run_views(runs@),
            text@ == runs_text(rv),
            all == cuts_from(text@, 0, width - 2),
            cuts@.len() == all.len(),
            ends@.len() == runs@.len(),
            forall|j: int|
                0 <= j < runs@.len() ==> #[trigger] ends@[j] as int == runs_text(
                    rv.take(j + 1),
                ).len(),
            forall|k: int| 0 <= k < cuts@.len() ==> cuts@[k] as int == #[trigger] all[k],
            forall|k: int|
                0 <= k < cuts@.len() ==> row_start(all, k) < #[trigger] cuts@[k] <= text@.len(),
            start == row_start(all, i as int),
            r@.len() == i,
            forall|k: int|
                0 <= k < i ==> #[trigger] r@[k]@ == colored_row(
                    rv,
                    row_start(all, k),
                    all[k],
                    width as int,
                ),
        decreases cuts.len() - i,
    {
        let end = cuts[i];
        assert(all[i as int] == end);
        r.push(colored_line(runs, &ends, start as u128, end as u128, width));
        start = end;
        i += 1;
    }
    assert(line_views(r@) =~= colored_rows(rv, width as int));
    r
}

fn border_line(text: &Vec<char>) -> (l: Line)
    ensures
        l@ == seq![styled(text@, code_border_style())],
{
    Line::single(
        Span::styled(text, Style::new().fg(theme::BORDER).bg(theme::code_bg_color())),
    )
}

/// Boxes the highlighted lines of a code block: the part of `highlight_code`
/// that follows the highlighter.
pub fn frame_code(lines: &Vec<HighlightedLine>, code: &str, lang: &str, width: usize) -> (r: Vec<
    Line,
>)
    ensures
        line_views(r@) == boxed_code(highlighted_views(lines@), code@, lang@, width as int),
{
    let inner_w: usize = if width > 2 {
        width - 2
    } else {
        0
    };
    let lang_chars = chars_of(lang);
    let mut top: Vec<char> = Vec::new();
    top.push('┌');
    top.push('─');
    let mut label_len: u128 = 0;
    if lang_chars.len() > 0 {
        top.push(' ');
        append(&mut top, &lang_chars);
        top.push(' ');
        label_len = lang_chars.len() as u128 + 2;
    }
    assert(top@ =~= seq!['┌', '─'] + language_label(lang@));
    let fill: usize = if inner_w as u128 > 1 + label_len {
        (inner_w as u128 - (1 + label_len)) as usize
    } else {
        0
    };
    append(&mut top, &repeat_char('─', fill));
    top.push('┐');
    assert(top@ =~= top_border(lang@, width as int));
    let mut out: Vec<Line> = Vec::new();
    out.push(border_line(&top));
    let ghost head = seq![seq![styled(top_border(lang@, width as int), code_border_style())]];
    assert(line_views(out@) =~= head);
    let ghost body = code_body(highlighted_views(lines@), code@, width as int);
    let code_chars = chars_of(code);
    if lines.len() == 0 && code_chars.len() > 0 {
        let raw = split_lines(&code_chars);
        let ghost l = lines_of(code@);
        let mut i: usize = 0;
        assert(head + plain_rows_upto(l, 0, width as int) =~= head);
        while i < raw.len()
            invariant
                i <= raw.len(),
                l == texts(raw@),
                line_views(out@) == head + plain_rows_upto(l, i as int, width as int),
            decreases raw.len() - i,
        {
            assert(l[i as int] == raw@[i as int]@);
            let ghost before = line_views(out@);
            push_rows(&mut out, plain_lines(&raw[i], width));
            assert(line_views(out@) =~= head + plain_rows_upto(l, i + 1, width as int));
            i += 1;
        }
    } else {
        let ghost l = highlighted_views(lines@);
        let mut i: usize = 0;
        assert(head + rows_upto(l, 0, width as int) =~= head);
        while i < lines.len()
            invariant
                i <= lines.len(),
                l == highlighted_views(lines@),
                line_views(out@) == head + rows_upto(l, i as int, width as int),
            decreases lines.len() - i,
        {
            assert(l[i as int] == lines@[i as int]@);
            let rows = match &lines[i] {
                HighlightedLine::Colored(runs) => colored_lines(&shown(runs), width),
                HighlightedLine::Plain(text) => plain_lines(
                    &strip_feeds(&chars_of(text.as_str())),
                    width,
                ),
            };
            push_rows(&mut out, rows);
            assert(line_views(out@) =~= head + rows_upto(l, i + 1, width as int));
            i += 1;
        }
    }
    assert(line_views(out@) == head + body);
    let mut bottom: Vec<char> = Vec::new();
    bottom.push('└');
    append(&mut bottom, &repeat_char('─', inner_w));
    bottom.push('┘');
    assert(bottom@ =~= bottom_border(width as int));
    let last = border_line(&bottom);
    proof {
        crate::style::lemma_line_views_push(out@, last);
        assert((head + body).push(last@) =~= head + body + seq![last@]);
    }
    out.push(last);
    out
}

/// The syntax token that stands for a language alias.
pub open spec fn resolved_language(lang: Seq<char>) -> Seq<char> {
    if lang == "typescript"@ || lang == "ts"@ || lang == "tsx"@ || lang == "jsx"@ {
        "javascript"@
    } else if lang == "sh"@ || lang == "zsh"@ || lang == "fish"@ || lang == "dockerfile"@ || lang
        == "makefile"@ {
        "bash"@
    } else if lang == "yml"@ {
        "yaml"@
    } else if lang == "jsonc"@ {
        "json"@
    } else if lang == "cxx"@ || lang == "cc"@ || lang == "hpp"@ {
        "cpp"@
    } else {
        lang
    }
}

fn is_word(t: &Vec<char>, lit: &str) -> (r: bool)
    ensures
        r == (t@ == lit@),
{
    same_text(t, &chars_of(lit))
}

/// Maps common language aliases to tokens that the syntax set recognizes.
pub fn resolve_lang<'a>(lang: &'a str) -> (r: &'a str)
    ensures
        r@ == resolved_language(lang@),
{
    let c = chars_of(lang);
    if is_word(&c, "typescript") || is_word(&c, "ts") || is_word(&c, "tsx") || is_word(&c, "jsx") {
        "javascript"
    } else if is_word(&c, "sh") || is_word(&c, "zsh") || is_word(&c, "fish") || is_word(
        &c,
        "dockerfile",
    ) || is_word(&c, "makefile") {
        "bash"
    } else if is_word(&c, "yml") {
        "yaml"
    } else if is_word(&c, "jsonc") {
        "json"
    } else if is_word(&c, "cxx") || is_word(&c, "cc") || is_word(&c, "hpp") {
        "cpp"
    } else {
        lang
    }
}

/// The token that a code block of the language is highlighted with: the
/// language itself where the syntax set knows it, else what its alias stands
/// for where the set knows that, else none (plain text).
pub open spec fn chosen_token(lang: Seq<char>) -> Option<Seq<char>> {
    picked_token(lang, syntax_known(lang), syntax_known(resolved_language(lang)))
}

/// The token for a code block of the language `lang`, given whether the
/// syntax set knows the language and whether it knows what its alias stands
/// for: the language itself where it is known, else the alias where that is
/// known, else none; none for a block that names no language.
pub open spec fn picked_token(lang: Seq<char>, known: bool, alias_known: bool) -> Option<
    Seq<char>,
> {
    if lang.len() == 0 {
        None
    } else if known {
        Some(lang)
    } else if alias_known {
        Some(resolved_language(lang))
    } else {
        None
    }
}

/// Picks the token that a code block is highlighted with.
pub fn pick_token<'a>(lang: &'a str, known: bool, alias_known: bool) -> (r: Option<&'a str>)
    ensures
        match r {
            Some(t) => picked_token(lang@, known, alias_known) == Some(t@),
            None => picked_token(lang@, known, alias_known).is_none(),
        },
{
    if lang.is_empty() {
        None
    } else if known {
        Some(lang)
    } else if alias_known {
        Some(resolve_lang(lang))
    } else {
        None
    }
}

/// Highlights a code block and boxes it for the preview.
pub fn highlight_code(hl: &Highlighter, code: &str, lang: &str, width: usize) -> (r: Vec<Line>)
    ensures
        line_views(r@) == boxed_code(
            syntax_colors(chosen_token(lang@), code@),
            code@,
            lang@,
            width as int,
        ),
{
    let known = knows_token(hl, lang);
    let alias_known = knows_token(hl, resolve_lang(lang));
    let lines = highlight_with(hl, pick_token(lang, known, alias_known), code);
    frame_code(&lines, code, lang, width)
}

/// A code fence region in the editor buffer.
#[derive(Debug, Clone, PartialEq)]
pub struct CodeFenceRegion {
    /// Line index of the opening fence (0-based).
    pub start_line: usize,
    /// Line index of the closing fence (0-based), or of the last line of the
    /// buffer where the fence is never closed.
    pub end_line: usize,
    /// The language named on the opening fence.
    pub language: String,
}

/// A `CodeFenceRegion` with its language as a sequence of characters.
pub struct RegionView {
    pub start_line: int,
    pub end_line: int,
    pub language: Seq<char>,
}

impl View for CodeFenceRegion {
    type V = RegionView;

    open spec fn view(&self) -> RegionView {
        RegionView {
            start_line: self.start_line as int,
            end_line: self.end_line as int,
            language: self.language@,
        }
    }
}

/// The views of a list of regions.
pub open spec fn region_views(v: Seq<CodeFenceRegion>) -> Seq<RegionView> {
    Seq::new(v.len(), |i: int| v[i]@)
}

/// Whether the line starts, after its indent, with three backticks.
pub open spec fn is_fence(line: Seq<char>) -> bool {
    has_prefix(trimmed_start(line), seq!['`', '`', '`'])
}

/// What follows the three backticks of a fence, without the whitespace
/// around it.
pub open spec fn fence_language(line: Seq<char>) -> Seq<char> {
    trimmed(trimmed_start(line).subrange(3, trimmed_start(line).len() as int))
}

/// Whether the line closes a fence: three backticks and nothing after them.
pub open spec fn is_closing_fence(line: Seq<char>) -> bool {
    is_fence(line) && fence_language(line).len() == 0
}

/// The index of the first closing fence at or after `i`; the number of lines
/// where there is none.
pub open spec fn closing_line(lines: Seq<Seq<char>>, i: int) -> int
    decreases lines.len() - i,
{
    if i < 0 || i >= lines.len() {
        lines.len() as int
    } else if is_closing_fence(lines[i]) {
        i
    } else {
        closing_line(lines, i + 1)
    }
}

/// The closing line is at or after `i`, and no line between closes a fence.
pub proof fn lemma_closing_line(lines: Seq<Seq<char>>, i: int)
    requires
        0 <= i,
    ensures
        i <= closing_line(lines, i) || closing_line(lines, i) == lines.len(),
        closing_line(lines, i) <= lines.len(),
        closing_line(lines, i) < lines.len() ==> is_closing_fence(lines[closing_line(lines, i)]),
        forall|k: int| i <= k < closing_line(lines, i) ==> !is_closing_fence(#[trigger] lines[k]),
    decreases lines.len() - i,
{
    if i < lines.len() && !is_closing_fence(lines[i]) {
        lemma_closing_line(lines, i + 1);
    }
}

/// The region that opens at line `i`: it ends at the next closing fence, or
/// at the last line where no fence closes it.
pub open spec fn region_at(lines: Seq<Seq<char>>, i: int) -> RegionView {
    let c = closing_line(lines, i + 1);
    RegionView {
        start_line: i,
        end_line: if c < lines.len() {
            c
        } else {
            lines.len() - 1
        },
        language: fence_language(lines[i]),
    }
}

/// The regions that open at or after line `i`, outside any earlier region.
pub open spec fn regions_from(lines: Seq<Seq<char>>, i: int) -> Seq<RegionView>
    decreases lines.len() - i,
{
    if i < 0 || i >= lines.len() {
        Seq::empty()
    } else if is_fence(lines[i]) {
        proof {
            lemma_closing_line(lines, i + 1);
        }
        let c = closing_line(lines, i + 1);
        seq![region_at(lines, i)] + regions_from(
            lines,
            if c < lines.len() {
                c + 1
            } else {
                lines.len() as int
            },
        )
    } else {
        regions_from(lines, i + 1)
    }
}

/// The code fence regions of a buffer.
pub open spec fn fence_regions(lines: Seq<Seq<char>>) -> Seq<RegionView> {
    regions_from(lines, 0)
}

fn backticks() -> (r: Vec<char>)
    ensures
        r@ == seq!['`', '`', '`'],
{
    let mut r: Vec<char> = Vec::new();
    r.push('`');
    r.push('`');
    r.push('`');
    r
}

/// The language of a fence line, or `None` where the line is no fence.
fn fence_of(line: &str) -> (r: Option<Vec<char>>)
    ensures
        match r {
            Some(lang) => is_fence(line@) && lang@ == fence_language(line@),
            None => !is_fence(line@),
        },
{
    let t = trim_start(&chars_of(line));
    if match_at(&t, &backticks(), 0) {
        Some(trim(&slice(&t, 3, t.len())))
    } else {
        None
    }
}

fn closes_fence(line: &str) -> (r: bool)
    ensures
        r == is_closing_fence(line@),
{
    match fence_of(line) {
        Some(lang) => lang.len() == 0,
        None => false,
    }
}

/// Scans editor lines for fence markers and returns the code fence regions.
pub fn find_code_fence_regions(lines: &[String]) -> (regions: Vec<CodeFenceRegion>)
    ensures
        region_views(regions@) == fence_regions(crate::text::string_texts(lines@)),
{
    let ghost l = crate::text::string_texts(lines@);
    let mut regions: Vec<CodeFenceRegion> = Vec::new();
    let mut i: usize = 0;
    assert(region_views(regions@) =~= Seq::<RegionView>::empty());
    while i < lines.len()
        invariant
            i <= lines.len(),
            l == crate::text::string_texts(lines@),
            region_views(regions@) + regions_from(l, i as int) == fence_regions(l),
        decreases lines.len() - i,
    {
        assert(l[i as int] == lines@[i as int]@);
        let ghost goal = region_views(regions@) + regions_from(l, i as int);
        match fence_of(lines[i].as_str()) {
            Some(lang) => {
                let start = i;
                i += 1;
                let mut end = lines.len() - 1;
                let mut closed = false;
                while i < lines.len()
                    invariant_except_break
                        !closed,
                        end == lines.len() - 1,
                        closing_line(l, i as int) == closing_line(l, start + 1),
                    invariant
                        start < i <= lines.len(),
                        l == crate::text::string_texts(lines@),
                    ensures
                        closed ==> start < end < lines.len() && end == closing_line(l, start + 1)
                            && i == end + 1,
                        !closed ==> closing_line(l, start + 1) == lines.len() && i == lines.len()
                            && end == lines.len() - 1,
                    decreases lines.len() - i,
                {
                    assert(l[i as int] == lines@[i as int]@);
                    if closes_fence(lines[i].as_str()) {
                        end = i;
                        i += 1;
                        closed = true;
                        break ;
                    }
                    i += 1;
                }
                let region = CodeFenceRegion {
                    start_line: start,
                    end_line: end,
                    language: string_of(&lang),
                };
                proof {
                    assert(region@ == region_at(l, start as int));
                    assert(region_views(regions@.push(region)) =~= region_views(regions@).push(
                        region@,
                    ));
                    assert(region_views(regions@.push(region)) + regions_from(l, i as int) =~= goal);
                }
                regions.push(region);
            },
            None => {
                i += 1;
            },
        }
    }
    assert(region_views(regions@) + Seq::<RegionView>::empty() =~= region_views(regions@));
    regions
}

/// The runs of a highlighted line that show: each without its line feeds,
/// and none that is empty then. A line that the highlighter failed on shows
/// no run.
pub open spec fn visible_runs(line: HighlightedLineView) -> Seq<ColorRunView> {
    match line {
        HighlightedLineView::Colored(runs) => shown_runs(runs),
        HighlightedLineView::Plain(_) => Seq::empty(),
    }
}

/// The runs that show: each without its line feeds, and none that is empty then.
pub open spec fn shown_runs(runs: Seq<ColorRunView>) -> Seq<ColorRunView>
    decreases runs.len(),
{
    if runs.len() == 0 {
        Seq::empty()
    } else {
        let t = without_feeds(runs.last().text);
        shown_runs(runs.drop_last()) + if t.len() == 0 {
            Seq::empty()
        } else {
            seq![ColorRunView { text: t, ..runs.last() }]
        }
    }
}

/// The text between the fences of a region: the lines after the opening
/// fence and before the end line, each with a line feed after it.
pub open spec fn region_code(lines: Seq<Seq<char>>, from: int, to: int) -> Seq<char>
    decreases to - from,
{
    if from >= to || to > lines.len() || from < 0 {
        Seq::empty()
    } else {
        region_code(lines, from, to - 1) + lines[to - 1] + seq!['\n']
    }
}

/// The index after the last content line of a region.
pub open spec fn content_end(region: RegionView, count: int) -> int {
    if region.end_line < count {
        if region.end_line > region.start_line {
            region.end_line
        } else {
            region.start_line + 1
        }
    } else if count > region.start_line {
        count
    } else {
        region.start_line + 1
    }
}

/// The token that a region is highlighted with: its language, if it names
/// one that the syntax set knows.
pub open spec fn region_token(region: RegionView) -> Option<Seq<char>> {
    if region.language.len() > 0 && syntax_known(region.language) {
        Some(region.language)
    } else {
        None
    }
}

/// The visible runs of each content line of a region.
pub open spec fn region_highlights(lines: Seq<Seq<char>>, region: RegionView) -> Seq<
    Seq<ColorRunView>,
> {
    visible_lines(
        syntax_colors(
            region_token(region),
            region_code(lines, region.start_line + 1, content_end(region, lines.len() as int)),
        ),
    )
}

/// The runs that show of each highlighted line.
pub open spec fn visible_lines(colors: Seq<HighlightedLineView>) -> Seq<Seq<ColorRunView>> {
    Seq::new(colors.len(), |i: int| visible_runs(colors[i]))
}

/// The views of the runs of each line.
pub open spec fn run_lists(v: Seq<Vec<ColorRun>>) -> Seq<Seq<ColorRunView>> {
    Seq::new(v.len(), |i: int| run_views(v[i]@))
}

/// The views of the runs of each line of each region.
pub open spec fn region_run_lists(v: Seq<Vec<Vec<ColorRun>>>) -> Seq<Seq<Seq<ColorRunView>>> {
    Seq::new(v.len(), |i: int| run_lists(v[i]@))
}

fn shown(runs: &Vec<ColorRun>) -> (r: Vec<ColorRun>)
    ensures
        run_views(r@) == shown_runs(run_views(runs@)),
{
    let mut r: Vec<ColorRun> = Vec::new();
    let mut i: usize = 0;
    assert(run_views(r@) =~= Seq::<ColorRunView>::empty());
    while i < runs.len()
        invariant
            i <= runs.len(),
            run_views(r@) == shown_runs(run_views(runs@).take(i as int)),
        decreases runs.len() - i,
    {
        proof {
            let t = run_views(runs@).take(i + 1);
            assert(t.drop_last() =~= run_views(runs@).take(i as int));
            assert(t.last() == runs@[i as int]@);
        }
        let run = &runs[i];
        let text = strip_feeds(&chars_of(run.text.as_str()));
        if text.len() > 0 {
            let kept = ColorRun { r: run.r, g: run.g, b: run.b, text: string_of(&text) };
            assert(run_views(r@.push(kept)) =~= run_views(r@).push(kept@));
            r.push(kept);
        }
        assert(run_views(r@) =~= shown_runs(run_views(runs@).take(i + 1)));
        i += 1;
    }
    assert(run_views(runs@).take(runs.len() as int) =~= run_views(runs@));
    r
}

/// The runs that show of each line that the highlighter returned.
pub fn shown_lines(colors: &Vec<HighlightedLine>) -> (r: Vec<Vec<ColorRun>>)
    ensures
        run_lists(r@) == visible_lines(highlighted_views(colors@)),
{
    let mut r: Vec<Vec<ColorRun>> = Vec::new();
    let mut i: usize = 0;
    while i < colors.len()
        invariant
            i <= colors.len(),
            r@.len() == i,
            forall|m: int| 0 <= m < i ==> run_views(r@[m]@) == visible_runs(colors@[m]@),
        decreases colors.len() - i,
    {
        let runs = match &colors[i] {
            HighlightedLine::Colored(runs) => shown(runs),
            HighlightedLine::Plain(_) => Vec::new(),
        };
        assert(run_views(runs@) =~= visible_runs(colors@[i as int]@));
        r.push(runs);
        i += 1;
    }
    assert(run_lists(r@) =~= visible_lines(highlighted_views(colors@)));
    r
}

/// The colors for the content of one region.
pub fn highlight_region(hl: &Highlighter, region: &CodeFenceRegion, lines: &[String]) -> (r: Vec<
    Vec<ColorRun>,
>)
    ensures
        run_lists(r@) == region_highlights(crate::text::string_texts(lines@), region@),
{
    let ghost l = crate::text::string_texts(lines@);
    let mut code: Vec<char> = Vec::new();
    let first: usize = if region.start_line < usize::MAX {
        region.start_line + 1
    } else {
        usize::MAX
    };
    let last: usize = if region.end_line < lines.len() {
        region.end_line
    } else {
        lines.len()
    };
    let last: usize = if last >= first {
        last
    } else {
        first
    };
    let mut k = first;
    while k < last
        invariant
            first <= k <= last,
            last <= lines.len() || last == first,
            l == crate::text::string_texts(lines@),
            code@ == region_code(l, first as int, k as int),
        decreases last - k,
    {
        assert(l[k as int] == lines@[k as int]@);
        append(&mut code, &chars_of(lines[k].as_str()));
        code.push('\n');
        k += 1;
        assert(code@ =~= region_code(l, first as int, k as int));
    }
    assert(region.start_line < usize::MAX ==> last == content_end(region@, lines.len() as int));
    let text = string_of(&code);
    let colors = if !region.language.as_str().is_empty() && knows_token(
        hl,
        region.language.as_str(),
    ) {
        highlight_with(hl, Some(region.language.as_str()), text.as_str())
    } else {
        highlight_with(hl, None, text.as_str())
    };
    shown_lines(&colors)
}

/// Computes the colors for all code fence regions: for each region, for each
/// content line, the visible runs.
pub fn highlight_code_regions(hl: &Highlighter, regions: &[CodeFenceRegion], lines: &[String]) -> (r:
    Vec<Vec<Vec<ColorRun>>>)
    ensures
        r@.len() == regions@.len(),
        forall|k: int|
            0 <= k < regions@.len() ==> run_lists(#[trigger] r@[k]@) == region_highlights(
                crate::text::string_texts(lines@),
                regions@[k]@,
            ),
{
    let mut r: Vec<Vec<Vec<ColorRun>>> = Vec::new();
    let mut k: usize = 0;
    while k < regions.len()
        invariant
            k <= regions.len(),
            r@.len() == k,
            forall|m: int|
                0 <= m < k ==> run_lists(#[trigger] r@[m]@) == region_highlights(
                    crate::text::string_texts(lines@),
                    regions@[m]@,
                ),
        decreases regions.len() - k,
    {
        r.push(highlight_region(hl, &regions[k], lines));
        k += 1;
    }
    r
}

/// Whether the region `r` is what a fence opening at its start line gives:
/// it starts at a fence, carries that fence's language, and ends at the
/// first closing fence after its start, or at the last line of the buffer
/// where there is none.
pub open spec fn region_is_sound(lines: Seq<Seq<char>>, r: RegionView) -> bool {
    &&& 0 <= r.start_line <= r.end_line < lines.len()
    &&& is_fence(lines[r.start_line])
    &&& r.language == fence_language(lines[r.start_line])
    &&& forall|j: int| r.start_line < j < r.end_line ==> !is_closing_fence(#[trigger] lines[j])
    &&& (is_closing_fence(lines[r.end_line]) && r.start_line < r.end_line) || (r.end_line
        == lines.len() - 1 && closing_line(lines, r.start_line + 1) == lines.len())
}

proof fn lemma_first_region(lines: Seq<Seq<char>>, i: int)
    requires
        0 <= i < lines.len(),
        is_fence(lines[i]),
    ensures
        region_is_sound(lines, region_at(lines, i)),
        region_at(lines, i).start_line == i,
        regions_from(lines, i) == seq![region_at(lines, i)] + regions_from(
            lines,
            region_at(lines, i).end_line + 1,
        ),
{
    lemma_closing_line(lines, i + 1);
    let c = closing_line(lines, i + 1);
    if c >= lines.len() {
        assert(regions_from(lines, lines.len() as int) =~= Seq::<RegionView>::empty());
    }
}

/// Every region found from line `i` on is sound and starts at or after `i`.
pub proof fn lemma_regions_sound(lines: Seq<Seq<char>>, i: int)
    requires
        0 <= i,
    ensures
        forall|k: int|
            0 <= k < regions_from(lines, i).len() ==> region_is_sound(
                lines,
                #[trigger] regions_from(lines, i)[k],
            ) && i <= regions_from(lines, i)[k].start_line,
    decreases lines.len() - i,
{
    if i < lines.len() {
        if is_fence(lines[i]) {
            lemma_first_region(lines, i);
            let first = region_at(lines, i);
            let rest = regions_from(lines, first.end_line + 1);
            let all = regions_from(lines, i);
            lemma_regions_sound(lines, first.end_line + 1);
            assert forall|k: int| 0 <= k < all.len() implies region_is_sound(
                lines,
                #[trigger] all[k],
            ) && i <= all[k].start_line by {
                if k > 0 {
                    assert(all[k] == rest[k - 1]);
                }
            }
        } else {
            lemma_regions_sound(lines, i + 1);
            assert(regions_from(lines, i) == regions_from(lines, i + 1));
        }
    } else {
        assert(regions_from(lines, i).len() == 0);
    }
}

/// The regions come in order and do not overlap.
pub proof fn lemma_regions_ordered(lines: Seq<Seq<char>>, i: int)
    requires
        0 <= i,
    ensures
        forall|k: int|
            0 <= k < regions_from(lines, i).len() - 1 ==> (#[trigger] regions_from(
                lines,
                i,
            )[k]).end_line < regions_from(lines, i)[k + 1].start_line,
    decreases lines.len() - i,
{
    if i < lines.len() {
        if is_fence(lines[i]) {
            lemma_first_region(lines, i);
            let first = region_at(lines, i);
            let rest = regions_from(lines, first.end_line + 1);
            let all = regions_from(lines, i);
            lemma_regions_ordered(lines, first.end_line + 1);
            lemma_regions_sound(lines, first.end_line + 1);
            assert forall|k: int| 0 <= k < all.len() - 1 implies (#[trigger] all[k]).end_line
                < all[k + 1].start_line by {
                assert(all[k + 1] == rest[k]);
                if k > 0 {
                    assert(all[k] == rest[k - 1]);
                }
            }
        } else {
            lemma_regions_ordered(lines, i + 1);
            assert(regions_from(lines, i) == regions_from(lines, i + 1));
        }
    } else {
        assert(regions_from(lines, i).len() == 0);
    }
}

/// Whether line `j` lies in one of the regions.
pub open spec fn in_a_region(regions: Seq<RegionView>, j: int) -> bool {
    exists|k: int|
        0 <= k < regions.len() && (#[trigger] regions[k]).start_line <= j <= regions[k].end_line
}

/// Every fence line from `i` on lies in a region: a fence outside the
/// regions before it opens one.
pub proof fn lemma_fences_covered(lines: Seq<Seq<char>>, i: int, j: int)
    requires
        0 <= i <= j < lines.len(),
        is_fence(lines[j]),
    ensures
        in_a_region(regions_from(lines, i), j),
    decreases lines.len() - i,
{
    let all = regions_from(lines, i);
    if is_fence(lines[i]) {
        lemma_first_region(lines, i);
        let first = region_at(lines, i);
        let rest = regions_from(lines, first.end_line + 1);
        if j <= first.end_line {
            assert(all[0].start_line <= j <= all[0].end_line);
        } else {
            lemma_fences_covered(lines, first.end_line + 1, j);
            let k = choose|k: int|
                0 <= k < rest.len() && (#[trigger] rest[k]).start_line <= j <= rest[k].end_line;
            assert(all[k + 1] == rest[k]);
        }
    } else {
        lemma_fences_covered(lines, i + 1, j);
        assert(regions_from(lines, i) == regions_from(lines, i + 1));
    }
}

} // verus!
