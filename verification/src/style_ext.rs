//! Inline style extensions: `==highlight==`, `^superscript^` and
//! `~subscript~`, found as delimiter pairs in a run of plain text.

use vstd::prelude::*;
use crate::math::{subscript_chars, subscripted, superscript_chars, superscripted};
use crate::style::{span_views, styled, Color, Span, SpanView, Style};
use crate::text::{chars_of, find_char, find_from, find_text, index_of_from, slice};

verus! {

/// The style of highlighted text: black on yellow.
pub open spec fn highlight_style() -> Style {
    Style::plain().with_bg(Color::Yellow).with_fg(Color::Black)
}

/// The plain text from `from` up to `to`, as one span in `base`; nothing
/// where the range is empty.
pub open spec fn plain_piece(s: Seq<char>, base: Style, from: int, to: int) -> Seq<SpanView> {
    if from < to {
        seq![styled(s.subrange(from, to), base)]
    } else {
        Seq::empty()
    }
}

/// Whether a highlight opens at `i`: `==`, at least two more characters, and
/// a closing `==` with something in between.
pub open spec fn highlight_at(s: Seq<char>, i: int) -> bool {
    &&& i + 3 < s.len()
    &&& s[i] == '='
    &&& s[i + 1] == '='
    &&& i + 2 < find_from(s, seq!['=', '='], i + 2)
    &&& find_from(s, seq!['=', '='], i + 2) + 2 <= s.len()
}

/// Whether a superscript opens at `i`: `^`, then neither `^` nor a space,
/// and a closing `^` with no space in between.
pub open spec fn superscript_at(s: Seq<char>, i: int) -> bool {
    &&& i + 1 < s.len()
    &&& s[i] == '^'
    &&& s[i + 1] != '^'
    &&& s[i + 1] != ' '
    &&& i + 1 < index_of_from(s, '^', i + 1) < s.len()
    &&& !s.subrange(i + 1, index_of_from(s, '^', i + 1)).contains(' ')
}

/// Whether a subscript opens at `i`: `~`, then neither `~` nor a space, and a
/// closing `~` with no space in between and no `~` right after it.
pub open spec fn subscript_at(s: Seq<char>, i: int) -> bool {
    &&& i + 1 < s.len()
    &&& s[i] == '~'
    &&& s[i + 1] != '~'
    &&& s[i + 1] != ' '
    &&& i + 1 < index_of_from(s, '~', i + 1) < s.len()
    &&& !s.subrange(i + 1, index_of_from(s, '~', i + 1)).contains(' ')
    &&& (index_of_from(s, '~', i + 1) + 1 >= s.len() || s[index_of_from(s, '~', i + 1) + 1]
        != '~')
}

/// The spans for `s` from position `i` on, where the plain text not yet
/// emitted starts at `plain`.
pub open spec fn ext_spans_from(s: Seq<char>, base: Style, i: int, plain: int) -> Seq<SpanView>
    decreases s.len() - i,
{
    if i < 0 || i >= s.len() {
        plain_piece(s, base, plain, s.len() as int)
    } else if highlight_at(s, i) {
        let close = find_from(s, seq!['=', '='], i + 2);
        plain_piece(s, base, plain, i) + seq![styled(s.subrange(i + 2, close), highlight_style())]
            + ext_spans_from(s, base, close + 2, close + 2)
    } else if superscript_at(s, i) {
        let close = index_of_from(s, '^', i + 1);
        plain_piece(s, base, plain, i) + seq![
            styled(superscripted(s.subrange(i + 1, close)), base),
        ] + ext_spans_from(s, base, close + 1, close + 1)
    } else if subscript_at(s, i) {
        let close = index_of_from(s, '~', i + 1);
        plain_piece(s, base, plain, i) + seq![styled(subscripted(s.subrange(i + 1, close)), base)]
            + ext_spans_from(s, base, close + 1, close + 1)
    } else {
        ext_spans_from(s, base, i + 1, plain)
    }
}

/// The spans for the text `s` in the style `base`: plain runs keep `base`,
/// highlights get the highlight style, superscripts and subscripts keep
/// `base` and get raised or lowered glyphs. A text without any span gives one
/// span holding the text.
pub open spec fn ext_spans(s: Seq<char>, base: Style) -> Seq<SpanView> {
    let r = ext_spans_from(s, base, 0, 0);
    if r.len() == 0 {
        seq![styled(s, base)]
    } else {
        r
    }
}

/// A span added to the list adds its view.
pub proof fn lemma_span_views_push(v: Seq<Span>, x: Span)
    ensures
        span_views(v.push(x)) == span_views(v).push(x@),
{
    assert(span_views(v.push(x)) =~= span_views(v).push(x@));
}

fn range_has_char(s: &Vec<char>, a: usize, b: usize, c: char) -> (r: bool)
    requires
        a <= b <= s.len(),
    ensures
        r == s@.subrange(a as int, b as int).contains(c),
{
    let mut i = a;
    while i < b
        invariant
            a <= i <= b <= s.len(),
            forall|j: int| a <= j < i ==> s@[j] != c,
        decreases b - i,
    {
        if s[i] == c {
            assert(s@.subrange(a as int, b as int)[i - a] == c);
            return true;
        }
        i += 1;
    }
    assert forall|j: int| 0 <= j < b - a implies s@.subrange(a as int, b as int)[j] != c by {
        assert(s@[a + j] != c);
    }
    false
}

fn flush_plain(s: &Vec<char>, base: Style, from: usize, to: usize, spans: &mut Vec<Span>)
    requires
        to <= s.len(),
    ensures
        span_views(final(spans)@) == span_views(old(spans)@) + plain_piece(
            s@,
            base,
            from as int,
            to as int,
        ),
{
    if from < to {
        let piece = Span::styled(&slice(s, from, to), base);
        proof {
            lemma_span_views_push(spans@, piece);
        }
        spans.push(piece);
    } else {
        assert(span_views(spans@) + Seq::<SpanView>::empty() =~= span_views(spans@));
    }
}

/// The same scan on characters.
pub fn style_extension_spans(chars: &Vec<char>, base_style: Style) -> (r: Vec<Span>)
    ensures
        span_views(r@) == ext_spans(chars@, base_style),
{
    let len = chars.len();
    let mut spans: Vec<Span> = Vec::new();
    let mut i: usize = 0;
    let mut plain_start: usize = 0;
    let mut eq2: Vec<char> = Vec::new();
    eq2.push('=');
    eq2.push('=');
    assert(eq2@ =~= seq!['=', '=']);
    assert(span_views(spans@) =~= Seq::<SpanView>::empty());
    while i < len
        invariant
            len == chars.len(),
            i <= len,
            plain_start <= len,
            eq2@ == seq!['=', '='],
            span_views(spans@) + ext_spans_from(chars@, base_style, i as int, plain_start as int)
                == ext_spans_from(chars@, base_style, 0, 0),
        decreases len - i,
    {
        let ghost before = span_views(spans@);
        let ghost rest = ext_spans_from(chars@, base_style, i as int, plain_start as int);
        if len - i > 3 && chars[i] == '=' && chars[i + 1] == '=' {
            if let Some(close) = find_text(chars, &eq2, i + 2) {
                if close > i + 2 {
                    assert(highlight_at(chars@, i as int));
                    flush_plain(chars, base_style, plain_start, i, &mut spans);
                    let piece = Span::styled(
                        &slice(chars, i + 2, close),
                        Style::new().bg(Color::Yellow).fg(Color::Black),
                    );
                    proof {
                        lemma_span_views_push(spans@, piece);
                        assert(span_views(spans@.push(piece)) + ext_spans_from(
                            chars@,
                            base_style,
                            close + 2,
                            close + 2,
                        ) =~= before + rest);
                    }
                    spans.push(piece);
                    i = close + 2;
                    plain_start = i;
                    continue;
                }
            }
        }
        assert(!highlight_at(chars@, i as int));
        let c = chars[i];
        if c == '^' && len - i > 1 && chars[i + 1] != '^' && chars[i + 1] != ' ' {
            if let Some(close) = find_char(chars, '^', i + 1) {
                if close > i + 1 && !range_has_char(chars, i + 1, close, ' ') {
                    assert(superscript_at(chars@, i as int));
                    flush_plain(chars, base_style, plain_start, i, &mut spans);
                    let piece = Span::styled(
                        &superscript_chars(&slice(chars, i + 1, close)),
                        base_style,
                    );
                    proof {
                        lemma_span_views_push(spans@, piece);
                        assert(span_views(spans@.push(piece)) + ext_spans_from(
                            chars@,
                            base_style,
                            close + 1,
                            close + 1,
                        ) =~= before + rest);
                    }
                    spans.push(piece);
                    i = close + 1;
                    plain_start = i;
                    continue;
                }
            }
        }
        assert(!superscript_at(chars@, i as int));
        if c == '~' && len - i > 1 && chars[i + 1] != '~' && chars[i + 1] != ' ' {
            if let Some(close) = find_char(chars, '~', i + 1) {
                if close > i + 1 && !range_has_char(chars, i + 1, close, ' ') && (close + 1 >= len
                    || chars[close + 1] != '~') {
                    assert(subscript_at(chars@, i as int));
                    flush_plain(chars, base_style, plain_start, i, &mut spans);
                    let piece = Span::styled(
                        &subscript_chars(&slice(chars, i + 1, close)),
                        base_style,
                    );
                    proof {
                        lemma_span_views_push(spans@, piece);
                        assert(span_views(spans@.push(piece)) + ext_spans_from(
                            chars@,
                            base_style,
                            close + 1,
                            close + 1,
                        ) =~= before + rest);
                    }
                    spans.push(piece);
                    i = close + 1;
                    plain_start = i;
                    continue;
                }
            }
        }
        assert(!subscript_at(chars@, i as int));
        i += 1;
    }
    flush_plain(chars, base_style, plain_start, len, &mut spans);
    if spans.len() == 0 {
        let whole = Span::styled(chars, base_style);
        let mut only: Vec<Span> = Vec::new();
        only.push(whole);
        assert(span_views(only@) =~= seq![styled(chars@, base_style)]);
        only
    } else {
        spans
    }
}

/// Scans `text` for `==highlight==`, `^superscript^` and `~subscript~` and
/// returns the styled spans.
pub fn style_extensions(text: &str, base_style: Style) -> (r: Vec<Span>)
    ensures
        span_views(r@) == ext_spans(text@, base_style),
{
    style_extension_spans(&chars_of(text), base_style)
}

} // verus!
