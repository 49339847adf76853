//! Decisions of the editor pane on plain text: word and paragraph ranges,
//! the split that wraps a line while typing, reflow on a new width, and the
//! mapping between screen and buffer positions.

use vstd::prelude::*;
use crate::code_highlight::{
    fence_regions, find_code_fence_regions, highlight_code_regions, region_highlights,
    region_run_lists, region_views, run_lists, run_views, CodeFenceRegion, ColorRun,
    ColorRunView, Highlighter, RegionView,
};
use crate::preview::{Rect, Rgb};
use crate::style::saturated;
use crate::table_format::{
    continuation, continuation_chars, format_table_chars, hard_wrap_chars, hard_wrapped,
    tables_formatted,
};
use crate::text::{
    alphanumeric, chars_of, copy, decimal, format_number, has_prefix, is_whitespace, is_ws,
    join, joined, last_index_before, lines_of, match_at, rfind_char,
    same_text, slice, split_lines, string_of, string_texts, texts, trim, trim_start, trimmed,
    trimmed_start,
};

verus! {

/// The class of a character for word boundaries: 0 for letters, digits and
/// `_`, 1 for whitespace, 2 for everything else.
pub open spec fn char_kind(c: char) -> u8 {
    if alphanumeric(c) || c == '_' {
        0
    } else if is_whitespace(c) {
        1
    } else {
        2
    }
}

/// Classifies a character for word-boundary detection.
pub fn char_class(c: char) -> (k: u8)
    ensures
        k == char_kind(c),
{
    if c.is_alphanumeric() || c == '_' {
        0
    } else if is_ws(c) {
        1
    } else {
        2
    }
}

/// The start of the run of characters of one class that ends before `j`.
pub open spec fn run_start(s: Seq<char>, j: int, kind: u8) -> int
    decreases j,
{
    if 0 < j <= s.len() && char_kind(s[j - 1]) == kind {
        run_start(s, j - 1, kind)
    } else {
        j
    }
}

/// The end of the run of characters of one class that starts at `i`.
pub open spec fn run_end(s: Seq<char>, i: int, kind: u8) -> int
    decreases s.len() - i,
{
    if 0 <= i < s.len() && char_kind(s[i]) == kind {
        run_end(s, i + 1, kind)
    } else {
        i
    }
}

/// The columns of the word under the cursor: the run of characters of the
/// class of the character at `col`. None where the cursor is past the line.
pub open spec fn word_span(s: Seq<char>, col: int) -> Option<(int, int)> {
    if 0 <= col < s.len() {
        Some((run_start(s, col, char_kind(s[col])), run_end(s, col, char_kind(s[col]))))
    } else {
        None
    }
}

/// Finds the word under the cursor, for a double click.
pub fn word_range(chars: &Vec<char>, col: usize) -> (r: Option<(usize, usize)>)
    ensures
        match r {
            Some((a, b)) => word_span(chars@, col as int) == Some((a as int, b as int)) && a <= col
                < b <= chars.len(),
            None => word_span(chars@, col as int).is_none(),
        },
{
    if col >= chars.len() {
        return None;
    }
    let target = char_class(chars[col]);
    let mut start = col;
    while start > 0 && char_class(chars[start - 1]) == target
        invariant
            start <= col < chars.len(),
            target == char_kind(chars@[col as int]),
            run_start(chars@, start as int, target) == run_start(chars@, col as int, target),
        decreases start,
    {
        start -= 1;
    }
    let mut end = col;
    while end < chars.len() && char_class(chars[end]) == target
        invariant
            col <= end <= chars.len(),
            target == char_kind(chars@[col as int]),
            end > col || end == col,
            run_end(chars@, end as int, target) == run_end(chars@, col as int, target),
        decreases chars.len() - end,
    {
        end += 1;
    }
    assert(end > col);
    Some((start, end))
}

/// Whether a line holds nothing but whitespace.
pub open spec fn is_empty_line(line: Seq<char>) -> bool {
    trimmed(line).len() == 0
}

/// The first line of the paragraph that line `row` belongs to.
pub open spec fn paragraph_start(lines: Seq<Seq<char>>, row: int) -> int
    decreases row,
{
    if 0 < row <= lines.len() && !is_empty_line(lines[row - 1]) {
        paragraph_start(lines, row - 1)
    } else {
        row
    }
}

/// The last line of the paragraph that line `row` belongs to.
pub open spec fn paragraph_end(lines: Seq<Seq<char>>, row: int) -> int
    decreases lines.len() - row,
{
    if 0 <= row && row + 1 < lines.len() && !is_empty_line(lines[row + 1]) {
        paragraph_end(lines, row + 1)
    } else {
        row
    }
}

fn empty_line(line: &str) -> (b: bool)
    ensures
        b == is_empty_line(line@),
{
    trim(&chars_of(line)).len() == 0
}

/// Finds the paragraph around the cursor, for a triple click: the first
/// line, the last line, and the length of the last line.
pub fn paragraph_range(lines: &[String], row: usize) -> (r: Option<(usize, usize, usize)>)
    ensures
        match r {
            Some((a, b, n)) => row < lines@.len() && a == paragraph_start(
                string_texts(lines@),
                row as int,
            ) && b == paragraph_end(string_texts(lines@), row as int) && a <= row <= b
                < lines@.len() && n == lines@[b as int]@.len(),
            None => row >= lines@.len(),
        },
{
    if row >= lines.len() {
        return None;
    }
    let ghost l = string_texts(lines@);
    let mut start = row;
    while start > 0 && !empty_line(lines[start - 1].as_str())
        invariant
            start <= row < lines.len(),
            l == string_texts(lines@),
            paragraph_start(l, start as int) == paragraph_start(l, row as int),
        decreases start,
    {
        assert(l[start - 1] == lines@[start - 1]@);
        start -= 1;
    }
    proof {
        if start > 0 {
            assert(l[start - 1] == lines@[start - 1]@);
        }
    }
    let mut end = row;
    while end + 1 < lines.len() && !empty_line(lines[end + 1].as_str())
        invariant
            row <= end < lines.len(),
            l == string_texts(lines@),
            paragraph_end(l, end as int) == paragraph_end(l, row as int),
        decreases lines.len() - end,
    {
        assert(l[end + 1] == lines@[end + 1]@);
        end += 1;
    }
    proof {
        if end + 1 < lines.len() {
            assert(l[end + 1] == lines@[end + 1]@);
        }
    }
    let n = chars_of(lines[end].as_str()).len();
    Some((start, end, n))
}

/// The part of `s` from `a` to `b`, both cut to the length of `s`.
pub open spec fn clipped(s: Seq<char>, a: int, b: int) -> Seq<char> {
    let hi = if b < s.len() {
        b
    } else {
        s.len() as int
    };
    let lo = if a < hi {
        a
    } else {
        hi
    };
    s.subrange(lo, hi)
}

/// The selected text from line `row` on, up to the position `ec` in line
/// `er`, where `row` is past the first line of the selection.
pub open spec fn selection_tail(lines: Seq<Seq<char>>, row: int, er: int, ec: int) -> Seq<char>
    decreases er - row,
{
    if row > er || row < 0 || row >= lines.len() {
        Seq::empty()
    } else if row == er {
        clipped(lines[row], 0, ec)
    } else {
        lines[row] + seq!['\n'] + selection_tail(lines, row + 1, er, ec)
    }
}

/// The text between two positions of the buffer, lines joined by line
/// feeds; positions beyond a line count as its end. None where the
/// selection starts after its end or outside the buffer.
pub open spec fn selection_text(lines: Seq<Seq<char>>, sr: int, sc: int, er: int, ec: int) -> Option<
    Seq<char>,
> {
    if sr > er || er >= lines.len() {
        None
    } else if sr == er {
        Some(clipped(lines[sr], sc, ec))
    } else {
        Some(
            clipped(lines[sr], sc, lines[sr].len() as int) + seq!['\n'] + selection_tail(
                lines,
                sr + 1,
                er,
                ec,
            ),
        )
    }
}

fn clip(s: &Vec<char>, a: usize, b: usize) -> (r: Vec<char>)
    ensures
        r@ == clipped(s@, a as int, b as int),
{
    let hi = if b < s.len() {
        b
    } else {
        s.len()
    };
    let lo = if a < hi {
        a
    } else {
        hi
    };
    slice(s, lo, hi)
}

/// Extracts the text between two cursor positions.
pub fn selected_text(lines: &[String], sr: usize, sc: usize, er: usize, ec: usize) -> (r: Option<
    String,
>)
    ensures
        match r {
            Some(t) => selection_text(
                string_texts(lines@),
                sr as int,
                sc as int,
                er as int,
                ec as int,
            ) == Some(t@),
            None => selection_text(
                string_texts(lines@),
                sr as int,
                sc as int,
                er as int,
                ec as int,
            ).is_none(),
        },
{
    if sr > er || er >= lines.len() {
        return None;
    }
    let ghost l = string_texts(lines@);
    assert(l[sr as int] == lines@[sr as int]@);
    let first = chars_of(lines[sr].as_str());
    if sr == er {
        return Some(string_of(&clip(&first, sc, ec)));
    }
    let mut out = clip(&first, sc, first.len());
    out.push('\n');
    let ghost head = out@;
    let mut row = sr + 1;
    while row < er
        invariant
            sr < row <= er < lines.len(),
            l == string_texts(lines@),
            out@ + selection_tail(l, row as int, er as int, ec as int) == head + selection_tail(
                l,
                sr + 1,
                er as int,
                ec as int,
            ),
        decreases er - row,
    {
        assert(l[row as int] == lines@[row as int]@);
        let ghost before = out@;
        crate::text::append(&mut out, &chars_of(lines[row].as_str()));
        out.push('\n');
        assert(out@ + selection_tail(l, row + 1, er as int, ec as int) =~= before + selection_tail(
            l,
            row as int,
            er as int,
            ec as int,
        ));
        row += 1;
    }
    assert(l[er as int] == lines@[er as int]@);
    let last = chars_of(lines[er].as_str());
    crate::text::append(&mut out, &clip(&last, 0, ec));
    Some(string_of(&out))
}

/// The number of words from position `i` on, where `inside` says whether
/// position `i` continues a word.
pub open spec fn words_in(s: Seq<char>, i: int, inside: bool) -> nat
    decreases s.len() - i,
{
    if i < 0 || i >= s.len() {
        0
    } else if is_whitespace(s[i]) {
        words_in(s, i + 1, false)
    } else if inside {
        words_in(s, i + 1, true)
    } else {
        1 + words_in(s, i + 1, true)
    }
}

/// The number of words in the first `k` lines.
pub open spec fn words_upto(lines: Seq<Seq<char>>, k: int) -> nat
    decreases k,
{
    if k <= 0 {
        0
    } else {
        words_upto(lines, k - 1) + words_in(lines[k - 1], 0, false)
    }
}

fn count_words(s: &Vec<char>) -> (n: usize)
    ensures
        n == words_in(s@, 0, false),
{
    let mut n: usize = 0;
    let mut inside = false;
    let mut i: usize = 0;
    while i < s.len()
        invariant
            i <= s.len(),
            n <= i,
            n + words_in(s@, i as int, inside) == words_in(s@, 0, false),
        decreases s.len() - i,
    {
        if is_ws(s[i]) {
            inside = false;
        } else {
            if !inside {
                n += 1;
            }
            inside = true;
        }
        i += 1;
    }
    n
}

/// Counts the words in the buffer; a word is a run of characters that are
/// no whitespace.
pub fn word_count(lines: &[String]) -> (n: usize)
    ensures
        n == saturated(words_upto(string_texts(lines@), lines@.len() as int)),
{
    let mut n: usize = 0;
    let mut k: usize = 0;
    while k < lines.len()
        invariant
            k <= lines.len(),
            n == saturated(words_upto(string_texts(lines@), k as int)),
        decreases lines.len() - k,
    {
        assert(string_texts(lines@)[k as int] == lines@[k as int]@);
        n = n.saturating_add(count_words(&chars_of(lines[k].as_str())));
        k += 1;
    }
    n
}

/// The width of the line-number gutter: the digits of the line count and
/// two spaces; nothing without line numbers.
pub open spec fn gutter_columns(total_lines: nat, line_numbers: bool) -> int {
    if line_numbers {
        decimal(total_lines).len() as int + 2
    } else {
        0int
    }
}

/// The width of the line-number gutter.
pub fn gutter_width(total_lines: usize, line_numbers: bool) -> (w: usize)
    ensures
        w == gutter_columns(total_lines as nat, line_numbers),
        w <= 41,
{
    if line_numbers {
        let digits = format_number(total_lines as u128);
        proof {
            lemma_decimal_length(total_lines as nat);
        }
        digits.len() + 2
    } else {
        0
    }
}

/// A number below ten to the power `k` has at most `k` digits.
pub proof fn lemma_decimal_length(n: nat)
    ensures
        1 <= decimal(n).len(),
        n <= usize::MAX ==> decimal(n).len() <= 20,
{
    lemma_decimal_steps(n, 20);
    assert(usize::MAX < pow10(20)) by {
        reveal_with_fuel(pow10, 21);
    }
}

/// Ten to the power `k`.
pub open spec fn pow10(k: nat) -> nat
    decreases k,
{
    if k == 0 {
        1
    } else {
        10 * pow10((k - 1) as nat)
    }
}

proof fn lemma_decimal_steps(n: nat, k: nat)
    ensures
        1 <= decimal(n).len(),
        k >= 1 && n < pow10(k) ==> decimal(n).len() <= k,
    decreases n,
{
    if n >= 10 {
        lemma_decimal_steps(n / 10, (k - 1) as nat);
        if k >= 1 && n < pow10(k) {
            assert(pow10(k) == 10 * pow10((k - 1) as nat));
            assert(k >= 2) by {
                reveal_with_fuel(pow10, 2);
            }
        }
    }
}

/// The columns before the text in the editor pane as it is painted: the
/// digits of the line count and one space.
pub fn painted_gutter(total_lines: usize) -> (w: u16)
    ensures
        w == decimal(total_lines as nat).len() + 1,
{
    proof {
        lemma_decimal_length(total_lines as nat);
    }
    (format_number(total_lines as u128).len() + 1) as u16
}

/// The first row of the editor pane below the text: the number of lines,
/// no more than a screen coordinate can name, less the rows scrolled away.
pub fn rows_of_text(total_lines: usize, scroll_top: u16) -> (rows: u16)
    ensures
        rows == if crate::buffer::narrowed(total_lines as int) > scroll_top {
            crate::buffer::narrowed(total_lines as int) - scroll_top
        } else {
            0
        },
{
    let lines: u16 = if total_lines <= u16::MAX as usize {
        total_lines as u16
    } else {
        u16::MAX
    };
    if lines > scroll_top {
        lines - scroll_top
    } else {
        0
    }
}

/// The rows of the editor pane that show a line of the buffer: the height
/// of the pane, or the lines left below the scroll position where they are
/// fewer.
pub fn rows_shown(height: u16, total_lines: usize, scroll_top: u16) -> (rows: u16)
    ensures
        rows == if total_lines <= scroll_top {
            0
        } else if total_lines - scroll_top < height {
            total_lines - scroll_top
        } else {
            height as int
        },
{
    if total_lines <= scroll_top as usize {
        0
    } else if total_lines - (scroll_top as usize) < height as usize {
        (total_lines - scroll_top as usize) as u16
    } else {
        height
    }
}

/// The width left for text beside the gutter.
pub open spec fn text_columns(area_width: int, total_lines: nat, line_numbers: bool) -> int {
    if area_width > gutter_columns(total_lines, line_numbers) {
        area_width - gutter_columns(total_lines, line_numbers)
    } else {
        0
    }
}

/// The width left for text beside the gutter.
pub fn available_text_width(area_width: u16, total_lines: usize, line_numbers: bool) -> (w: usize)
    ensures
        w == text_columns(area_width as int, total_lines as nat, line_numbers),
{
    let gutter = gutter_width(total_lines, line_numbers);
    if area_width as usize > gutter {
        area_width as usize - gutter
    } else {
        0
    }
}

/// Whether a line is never wrapped while typing: a heading, a fence or a
/// table row.
pub open spec fn is_exempt(line: Seq<char>) -> bool {
    let t = trimmed_start(line);
    has_prefix(t, seq!['#']) || has_prefix(t, seq!['`', '`', '`']) || has_prefix(
        t,
        seq!['~', '~', '~'],
    ) || has_prefix(t, seq!['|'])
}

/// Where a line is split while typing.
pub struct WrapSplit {
    /// The position of the space that the line is broken at.
    pub break_pos: usize,
    /// What the new line starts with.
    pub indent: String,
    /// The column of the cursor on the new line, where the cursor stood
    /// after the break.
    pub cursor_col: Option<usize>,
}

/// A `WrapSplit` with its indent as a sequence of characters.
pub struct WrapSplitView {
    pub break_pos: int,
    pub indent: Seq<char>,
    pub cursor_col: Option<int>,
}

impl View for WrapSplit {
    type V = WrapSplitView;

    open spec fn view(&self) -> WrapSplitView {
        WrapSplitView {
            break_pos: self.break_pos as int,
            indent: self.indent@,
            cursor_col: match self.cursor_col {
                Some(c) => Some(c as int),
                None => None,
            },
        }
    }
}

/// The position that a line too long for `text_width` is broken at: the
/// last space at or before the width, unless it is the first character.
pub open spec fn break_position(line: Seq<char>, text_width: int) -> int {
    last_index_before(
        line,
        ' ',
        if text_width < line.len() {
            text_width + 1
        } else {
            line.len() as int
        },
    )
}

/// The column on the new line of a cursor that stood at `col`, after the
/// break at `pos`: as far behind the indent as it was behind the break, but
/// not past the end of the new line.
pub open spec fn moved_column(line: Seq<char>, col: int, pos: int) -> int {
    let indent = continuation(line).len() as int;
    if col < line.len() {
        indent + (col - pos - 1)
    } else {
        indent + (line.len() - pos - 1)
    }
}

/// The split that wraps `line` with the cursor at `col`: none where the
/// line fits, is exempt or has no space to break at. The cursor keeps its
/// place in the text where it stood after the break.
pub open spec fn wrap_split(line: Seq<char>, col: int, text_width: int) -> Option<WrapSplitView> {
    let pos = break_position(line, text_width);
    if text_width <= 0 || line.len() <= text_width || is_exempt(line) || pos <= 0 {
        None
    } else {
        Some(
            WrapSplitView {
                break_pos: pos,
                indent: continuation(line),
                cursor_col: if col > pos {
                    Some(saturated(moved_column(line, col, pos) as nat) as int)
                } else {
                    None
                },
            },
        )
    }
}

fn starts_with_one(t: &Vec<char>, c: char) -> (b: bool)
    ensures
        b == has_prefix(t@, seq![c]),
{
    let mut p: Vec<char> = Vec::new();
    p.push(c);
    assert(p@ =~= seq![c]);
    match_at(t, &p, 0)
}

fn starts_with_three(t: &Vec<char>, c: char) -> (b: bool)
    ensures
        b == has_prefix(t@, seq![c, c, c]),
{
    let mut p: Vec<char> = Vec::new();
    p.push(c);
    p.push(c);
    p.push(c);
    assert(p@ =~= seq![c, c, c]);
    match_at(t, &p, 0)
}

/// Decides whether and where the line under the cursor is split.
pub fn wrap_point(line: &str, col: usize, text_width: usize) -> (r: Option<WrapSplit>)
    ensures
        match r {
            Some(s) => wrap_split(line@, col as int, text_width as int) == Some(s@) && 0
                < s.break_pos < line@.len() && s.break_pos <= text_width,
            None => wrap_split(line@, col as int, text_width as int).is_none(),
        },
{
    let chars = chars_of(line);
    if text_width == 0 || chars.len() <= text_width {
        return None;
    }
    let t = trim_start(&chars);
    if starts_with_one(&t, '#') || starts_with_three(&t, '`') || starts_with_three(&t, '~')
        || starts_with_one(&t, '|') {
        return None;
    }
    let pos = match rfind_char(&chars, ' ', text_width + 1) {
        Some(p) => p,
        None => 0,
    };
    if pos == 0 {
        return None;
    }
    let indent = continuation_chars(&chars);
    let cursor_col = if col > pos {
        let behind = if col < chars.len() {
            col - pos - 1
        } else {
            chars.len() - pos - 1
        };
        let moved: u128 = indent.len() as u128 + behind as u128;
        Some(
            if moved > usize::MAX as u128 {
                usize::MAX
            } else {
                moved as usize
            },
        )
    } else {
        None
    };
    proof {
        crate::table_format::lemma_continuation_length(chars@);
    }
    Some(WrapSplit { break_pos: pos, indent: string_of(&indent), cursor_col })
}

/// The lines that the buffer holds for a text: its lines, and one empty
/// line for a text without any.
pub open spec fn buffer_lines(text: Seq<char>) -> Seq<Seq<char>> {
    if lines_of(text).len() == 0 {
        seq![Seq::empty()]
    } else {
        lines_of(text)
    }
}

/// The cursor position brought into the lines: the row no further than the
/// last line, the column no further than the end of that row.
pub open spec fn clamped_cursor(lines: Seq<Seq<char>>, row: int, col: int) -> (int, int) {
    let r = if row < lines.len() - 1 {
        row
    } else {
        lines.len() - 1
    };
    let c = if r >= 0 && col > lines[r].len() {
        lines[r].len() as int
    } else {
        col
    };
    (r, c)
}

/// The buffer after a reflow.
pub struct Reflowed {
    pub lines: Vec<String>,
    pub cursor: (usize, usize),
    /// The original text wrapped at the new width, which the buffer is
    /// compared with to tell whether it was modified.
    pub wrapped_original: String,
    pub modified: bool,
}

/// A `Reflowed` with its texts as sequences of characters.
pub struct ReflowedView {
    pub lines: Seq<Seq<char>>,
    pub cursor: (int, int),
    pub wrapped_original: Seq<char>,
    pub modified: bool,
}

impl View for Reflowed {
    type V = ReflowedView;

    open spec fn view(&self) -> ReflowedView {
        ReflowedView {
            lines: string_texts(self.lines@),
            cursor: (self.cursor.0 as int, self.cursor.1 as int),
            wrapped_original: self.wrapped_original@,
            modified: self.modified,
        }
    }
}

/// The buffer after the text was wrapped again for `width`: from the
/// original text where nothing was edited, so that a wider window unwraps
/// lines, else from the current text.
pub open spec fn reflowed(
    original: Seq<char>,
    current: Seq<char>,
    modified: bool,
    row: int,
    col: int,
    width: int,
) -> ReflowedView {
    let source = if modified {
        current
    } else {
        original
    };
    let lines = buffer_lines(hard_wrapped(source, width));
    let kept = joined(buffer_lines(hard_wrapped(original, width)), seq!['\n']);
    ReflowedView {
        lines,
        cursor: clamped_cursor(lines, row, col),
        wrapped_original: kept,
        modified: joined(lines, seq!['\n']) != kept,
    }
}

/// The buffer always holds a line.
pub proof fn lemma_buffer_lines_nonempty(text: Seq<char>)
    ensures
        buffer_lines(text).len() > 0,
{
}

fn to_buffer(text: &Vec<char>) -> (r: Vec<Vec<char>>)
    ensures
        texts(r@) == buffer_lines(text@),
        r@.len() > 0,
{
    let mut lines = split_lines(text);
    if lines.len() == 0 {
        lines.push(Vec::new());
        assert(texts(lines@) =~= seq![Seq::<char>::empty()]);
    }
    assert(texts(lines@).len() == lines@.len());
    lines
}

fn to_strings(lines: &Vec<Vec<char>>) -> (r: Vec<String>)
    ensures
        string_texts(r@) == texts(lines@),
{
    let mut r: Vec<String> = Vec::new();
    let mut i: usize = 0;
    while i < lines.len()
        invariant
            i <= lines.len(),
            r@.len() == i,
            forall|k: int| 0 <= k < i ==> #[trigger] r@[k]@ == lines@[k]@,
        decreases lines.len() - i,
    {
        r.push(string_of(&lines[i]));
        i += 1;
    }
    assert(string_texts(r@) =~= texts(lines@));
    r
}

fn clamp_cursor(lines: &Vec<Vec<char>>, row: usize, col: usize) -> (r: (usize, usize))
    requires
        lines@.len() > 0,
    ensures
        (r.0 as int, r.1 as int) == clamped_cursor(texts(lines@), row as int, col as int),
{
    let r = if row < lines.len() - 1 {
        row
    } else {
        lines.len() - 1
    };
    assert(texts(lines@)[r as int] == lines@[r as int]@);
    let c = if col > lines[r].len() {
        lines[r].len()
    } else {
        col
    };
    (r, c)
}

/// Wraps the whole buffer again for a new width.
pub fn reflow(original: &str, current: &str, modified: bool, cursor: (usize, usize), width: usize) -> (r:
    Reflowed)
    ensures
        r@ == reflowed(
            original@,
            current@,
            modified,
            cursor.0 as int,
            cursor.1 as int,
            width as int,
        ),
{
    let original_chars = chars_of(original);
    let wrapped_source = hard_wrap_chars(&original_chars, width);
    let mut feed: Vec<char> = Vec::new();
    feed.push('\n');
    let wrapped_original = join(&to_buffer(&wrapped_source), &feed);
    let wrapped = if modified {
        hard_wrap_chars(&chars_of(current), width)
    } else {
        wrapped_source
    };
    let lines = to_buffer(&wrapped);
    let cursor = clamp_cursor(&lines, cursor.0, cursor.1);
    let rejoined = join(&lines, &feed);
    let modified = !same_text(&rejoined, &wrapped_original);
    Reflowed {
        lines: to_strings(&lines),
        cursor,
        wrapped_original: string_of(&wrapped_original),
        modified,
    }
}

/// The text in the shape it is saved in: tables formatted for `width`, then
/// long lines wrapped.
pub open spec fn save_text(content: Seq<char>, width: int) -> Seq<char> {
    hard_wrapped(tables_formatted(content, width), width)
}

/// The buffer after formatting for a save.
pub struct Reformatted {
    pub lines: Vec<String>,
    pub cursor: (usize, usize),
}

/// Formats the buffer for saving. Returns the new lines and cursor where
/// formatting changed the text, `None` where the buffer stays as it is.
pub fn format_for_save(content: &str, width: usize, cursor: (usize, usize)) -> (r: Option<
    Reformatted,
>)
    ensures
        match r {
            Some(f) => save_text(content@, width as int) != content@ && string_texts(f.lines@)
                == buffer_lines(save_text(content@, width as int)) && (
            f.cursor.0 as int,
            f.cursor.1 as int,
            ) == clamped_cursor(
                buffer_lines(save_text(content@, width as int)),
                cursor.0 as int,
                cursor.1 as int,
            ),
            None => save_text(content@, width as int) == content@,
        },
{
    let chars = chars_of(content);
    let formatted = hard_wrap_chars(&format_table_chars(&chars, width), width);
    if same_text(&formatted, &chars) {
        return None;
    }
    let lines = to_buffer(&formatted);
    let cursor = clamp_cursor(&lines, cursor.0, cursor.1);
    Some(Reformatted { lines: to_strings(&lines), cursor })
}

/// The buffer position under a screen position inside the editor area: the
/// row counted from the first visible line, the column less the gutter.
pub fn mouse_to_buffer_pos(column: u16, row: u16, area: Rect, scroll_top: u16, gutter: u16) -> (r: (
    u16,
    u16,
))
    requires
        area.x <= column,
        area.y <= row,
    ensures
        r.0 == if row - area.y + scroll_top <= u16::MAX {
            row - area.y + scroll_top
        } else {
            u16::MAX as int
        },
        r.1 == if column - area.x > gutter {
            column - area.x - gutter
        } else {
            0
        },
{
    let relative_row = row - area.y;
    let relative_col = column - area.x;
    (
        if relative_row <= u16::MAX - scroll_top {
            relative_row + scroll_top
        } else {
            u16::MAX
        },
        if relative_col > gutter {
            relative_col - gutter
        } else {
            0
        },
    )
}

/// The first visible line after the cursor moved: the view follows the
/// cursor just far enough to keep it visible.
pub fn scroll_top_after(cursor_row: u16, scroll_top: u16, height: u16) -> (r: u16)
    ensures
        r == if cursor_row < scroll_top {
            cursor_row as int
        } else if scroll_top + height <= cursor_row {
            if cursor_row + 1 - height <= u16::MAX {
                cursor_row + 1 - height
            } else {
                u16::MAX as int
            }
        } else {
            scroll_top as int
        },
{
    if cursor_row < scroll_top {
        cursor_row
    } else if scroll_top as u32 + height as u32 <= cursor_row as u32 {
        let top = cursor_row as u32 + 1 - height as u32;
        if top <= u16::MAX as u32 {
            top as u16
        } else {
            u16::MAX
        }
    } else {
        scroll_top
    }
}

/// A cell of the editor whose foreground the highlighting sets.
#[derive(Clone, Copy, Debug, PartialEq, Eq, Structural)]
pub struct OverlayCell {
    pub x: u16,
    pub y: u16,
    pub color: Rgb,
}

/// The color of each character of a highlighted line, run after run.
pub open spec fn run_colors(runs: Seq<ColorRunView>) -> Seq<Rgb>
    decreases runs.len(),
{
    if runs.len() == 0 {
        Seq::empty()
    } else {
        run_colors(runs.drop_last()) + Seq::new(
            runs.last().text.len(),
            |i: int| Rgb { r: runs.last().r, g: runs.last().g, b: runs.last().b },
        )
    }
}

/// The cells for the first `c` characters of a line shown in row `y` with
/// its text starting at column `start_x`: one for each character left of
/// `limit`, but none under the cursor.
pub open spec fn line_cells(colors: Seq<Rgb>, c: int, y: int, start_x: int, limit: int, cursor: Option<
    int,
>) -> Seq<OverlayCell>
    decreases c,
{
    if c <= 0 {
        Seq::empty()
    } else {
        line_cells(colors, c - 1, y, start_x, limit, cursor) + if c - 1 < colors.len() && start_x
            + c - 1 < limit && cursor != Some(c - 1) {
            seq![OverlayCell { x: (start_x + c - 1) as u16, y: y as u16, color: colors[c - 1] }]
        } else {
            Seq::empty()
        }
    }
}

/// What the overlay needs to know of the editor view.
#[derive(Clone, Copy, Debug, PartialEq, Eq, Structural)]
pub struct EditorView {
    pub area: Rect,
    pub scroll_top: u16,
    pub gutter_width: u16,
    pub cursor_row: usize,
    pub cursor_col: usize,
}

/// The cells for the first `k` highlighted lines of a region: a line shows
/// where it is in the viewport.
pub open spec fn region_cells(
    region: RegionView,
    highlights: Seq<Seq<ColorRunView>>,
    k: int,
    view: EditorView,
) -> Seq<OverlayCell>
    decreases k,
{
    if k <= 0 {
        Seq::empty()
    } else {
        let line = region.start_line + k;
        let colors = run_colors(highlights[k - 1]);
        region_cells(region, highlights, k - 1, view) + if view.scroll_top <= line
            < view.scroll_top + view.area.height {
            line_cells(
                colors,
                colors.len() as int,
                view.area.y + line - view.scroll_top,
                view.area.x + view.gutter_width + 1,
                view.area.x + view.area.width,
                if line == view.cursor_row {
                    Some(view.cursor_col as int)
                } else {
                    None
                },
            )
        } else {
            Seq::empty()
        }
    }
}

/// Whether a region has a line in the viewport.
pub open spec fn region_in_view(region: RegionView, view: EditorView) -> bool {
    region.end_line >= view.scroll_top && region.start_line < view.scroll_top + view.area.height
}

/// The cells for the first `k` regions.
pub open spec fn overlay_upto(
    regions: Seq<RegionView>,
    highlights: Seq<Seq<Seq<ColorRunView>>>,
    k: int,
    view: EditorView,
) -> Seq<OverlayCell>
    decreases k,
{
    if k <= 0 {
        Seq::empty()
    } else {
        overlay_upto(regions, highlights, k - 1, view) + if k - 1 < highlights.len()
            && region_in_view(regions[k - 1], view) {
            region_cells(
                regions[k - 1],
                highlights[k - 1],
                highlights[k - 1].len() as int,
                view,
            )
        } else {
            Seq::empty()
        }
    }
}

fn colors_of(runs: &Vec<ColorRun>) -> (r: Vec<Rgb>)
    ensures
        r@ == run_colors(run_views(runs@)),
{
    let mut r: Vec<Rgb> = Vec::new();
    let mut i: usize = 0;
    while i < runs.len()
        invariant
            i <= runs.len(),
            r@ == run_colors(run_views(runs@).take(i as int)),
        decreases runs.len() - i,
    {
        proof {
            let t = run_views(runs@).take(i + 1);
            assert(t.drop_last() =~= run_views(runs@).take(i as int));
            assert(t.last() == runs@[i as int]@);
        }
        let run = &runs[i];
        let n = chars_of(run.text.as_str()).len();
        let ghost before = r@;
        let color = Rgb { r: run.r, g: run.g, b: run.b };
        let mut k: usize = 0;
        while k < n
            invariant
                k <= n,
                r@ == before + Seq::new(k as nat, |j: int| color),
            decreases n - k,
        {
            r.push(color);
            k += 1;
            assert(r@ =~= before + Seq::new(k as nat, |j: int| color));
        }
        i += 1;
    }
    assert(run_views(runs@).take(runs.len() as int) =~= run_views(runs@));
    r
}

fn push_line_cells(
    colors: &Vec<Rgb>,
    y: u16,
    start_x: u32,
    limit: u32,
    cursor: Option<usize>,
    out: &mut Vec<OverlayCell>,
)
    requires
        limit <= u16::MAX,
    ensures
        final(out)@ == old(out)@ + line_cells(
            colors@,
            colors@.len() as int,
            y as int,
            start_x as int,
            limit as int,
            match cursor {
                Some(c) => Some(c as int),
                None => None,
            },
        ),
{
    let ghost cur = match cursor {
        Some(c) => Some(c as int),
        None => None,
    };
    let mut c: usize = 0;
    assert(out@ + Seq::<OverlayCell>::empty() =~= out@);
    while c < colors.len()
        invariant
            c <= colors.len(),
            limit <= u16::MAX,
            cur == match cursor {
                Some(c) => Some(c as int),
                None => None,
            },
            out@ == old(out)@ + line_cells(
                colors@,
                c as int,
                y as int,
                start_x as int,
                limit as int,
                cur,
            ),
        decreases colors.len() - c,
    {
        let at_cursor = match cursor {
            Some(k) => k == c,
            None => false,
        };
        let ghost before = out@;
        if (c as u128) + (start_x as u128) < limit as u128 && !at_cursor {
            out.push(OverlayCell { x: (start_x as usize + c) as u16, y, color: colors[c] });
        }
        assert(out@ =~= old(out)@ + line_cells(
            colors@,
            c + 1,
            y as int,
            start_x as int,
            limit as int,
            cur,
        ));
        c += 1;
    }
}

/// The cells whose foreground the highlighting of the code fences sets:
/// the visible characters of the highlighted lines, but for the one under
/// the cursor.
pub fn overlay_cells(
    regions: &Vec<CodeFenceRegion>,
    highlights: &Vec<Vec<Vec<ColorRun>>>,
    view: EditorView,
) -> (out: Vec<OverlayCell>)
    requires
        view.area.fits(),
    ensures
        out@ == overlay_upto(
            region_views(regions@),
            region_run_lists(highlights@),
            regions@.len() as int,
            view,
        ),
{
    let mut out: Vec<OverlayCell> = Vec::new();
    let ghost rv = region_views(regions@);
    let ghost hv = region_run_lists(highlights@);
    let visible_end: u32 = view.scroll_top as u32 + view.area.height as u32;
    let start_x: u32 = view.area.x as u32 + view.gutter_width as u32 + 1;
    let limit: u32 = view.area.x as u32 + view.area.width as u32;
    let mut k: usize = 0;
    while k < regions.len()
        invariant
            k <= regions.len(),
            view.area.fits(),
            rv == region_views(regions@),
            hv == region_run_lists(highlights@),
            visible_end == view.scroll_top + view.area.height,
            start_x == view.area.x + view.gutter_width + 1,
            limit == view.area.x + view.area.width,
            out@ == overlay_upto(rv, hv, k as int, view),
        decreases regions.len() - k,
    {
        let region = &regions[k];
        assert(rv[k as int] == region@);
        let ghost before = out@;
        if k < highlights.len() && region.end_line >= view.scroll_top as usize && (
        region.start_line as u128) < visible_end as u128 {
            let lines = &highlights[k];
            assert(hv[k as int] == run_lists(lines@));
            let ghost lv = run_lists(lines@);
            let mut j: usize = 0;
            assert(before + Seq::<OverlayCell>::empty() =~= before);
            while j < lines.len()
                invariant
                    j <= lines.len(),
                    view.area.fits(),
                    lv == run_lists(lines@),
                    visible_end == view.scroll_top + view.area.height,
                    start_x == view.area.x + view.gutter_width + 1,
                    limit == view.area.x + view.area.width,
                    region.start_line < visible_end,
                    out@ == before + region_cells(region@, lv, j as int, view),
                decreases lines.len() - j,
            {
                assert(lv[j as int] == run_views(lines@[j as int]@));
                let line: u128 = region.start_line as u128 + j as u128 + 1;
                let ghost prev = out@;
                if line >= view.scroll_top as u128 && line < visible_end as u128 {
                    let colors = colors_of(&lines[j]);
                    let y = (view.area.y as u128 + line - view.scroll_top as u128) as u16;
                    let cursor = if line == view.cursor_row as u128 {
                        Some(view.cursor_col)
                    } else {
                        None
                    };
                    push_line_cells(&colors, y, start_x, limit, cursor, &mut out);
                }
                assert(out@ =~= before + region_cells(region@, lv, j + 1, view));
                j += 1;
            }
        }
        assert(out@ =~= overlay_upto(rv, hv, k + 1, view));
        k += 1;
    }
    out
}

/// The code fences of the buffer and their colors, kept until the buffer
/// changes.
pub struct HighlightCache {
    pub regions: Vec<CodeFenceRegion>,
    /// For each region, for each content line, the colored runs.
    pub highlights: Vec<Vec<Vec<ColorRun>>>,
    /// Whether the buffer changed since the cache was filled.
    pub dirty: bool,
}

impl HighlightCache {
    /// A cache that is to be filled.
    pub fn new() -> (c: HighlightCache)
        ensures
            c.dirty,
            c.regions@.len() == 0,
            c.highlights@.len() == 0,
    {
        HighlightCache { regions: Vec::new(), highlights: Vec::new(), dirty: true }
    }

    /// Notes that the buffer changed: everything is computed anew at the
    /// next refresh.
    pub fn invalidate(&mut self)
        ensures
            final(self).dirty,
            final(self).regions == old(self).regions,
            final(self).highlights == old(self).highlights,
    {
        self.dirty = true;
    }

    /// Fills the cache if the buffer changed and the highlighter is ready.
    /// Returns whether the cache is up to date; where it is not, the frame
    /// goes without highlighting and the next one tries again.
    pub fn refresh(&mut self, lines: &[String], hl: Option<&Highlighter>) -> (ready: bool)
        ensures
            ready == (!old(self).dirty || hl.is_some()),
            final(self).dirty == !ready,
            !old(self).dirty || hl.is_none() ==> final(self).regions == old(self).regions
                && final(self).highlights == old(self).highlights,
            old(self).dirty && hl.is_some() ==> region_views(final(self).regions@)
                == fence_regions(string_texts(lines@)) && final(self).highlights@.len()
                == final(self).regions@.len() && forall|k: int|
                0 <= k < final(self).regions@.len() ==> run_lists(
                    #[trigger] final(self).highlights@[k]@,
                ) == region_highlights(string_texts(lines@), final(self).regions@[k]@),
    {
        if !self.dirty {
            return true;
        }
        match hl {
            None => false,
            Some(h) => {
                self.regions = find_code_fence_regions(lines);
                self.highlights = highlight_code_regions(h, self.regions.as_slice(), lines);
                self.dirty = false;
                true
            },
        }
    }
}

} // verus!
