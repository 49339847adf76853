//! The editor buffer: the text area widget, and the editing that follows
//! from the rules of the editor pane.

use vstd::prelude::*;
use tui_textarea::{CursorMove, TextArea};
use crate::autocomplete::{
    analyze_line_for_continuation, auto_close_pair, closing_of, continuation_of,
    should_skip_backtick_pair, should_skip_quote_pair, Continuation, ContinuationView,
};
use crate::editor::{
    available_text_width, buffer_lines, clamped_cursor, format_for_save, paragraph_end,
    paragraph_range, paragraph_start, reflow, reflowed, save_text, selected_text,
    selection_text, text_columns, word_range, word_span, wrap_point, wrap_split, WrapSplitView,
};
use crate::table_format::{continuation, has_no_break, lemma_continuation_has_no_break};
use crate::text::{alphanumeric, chars_of, join, joined, same_str, string_of, string_texts, texts};

verus! {

/// The text area widget with the text of the document, its cursor, its
/// selection and its history. The widget is opaque to the proofs: what they
/// know of it, they know through the four functions below and the contracts
/// of the calls into it.
#[verifier::external_body]
pub struct Buffer {
    pub textarea: TextArea<'static>,
}

/// The lines that a text area holds.
pub uninterp spec fn buffer_of(t: Buffer) -> Seq<Seq<char>>;

/// The cursor of a text area: row and column, both counted in characters
/// from 0.
pub uninterp spec fn cursor_of(t: Buffer) -> (nat, nat);

/// Where the selection of a text area started, while one is going on.
pub uninterp spec fn anchor_of(t: Buffer) -> Option<(nat, nat)>;

/// Whether a text area shows line numbers.
pub uninterp spec fn shows_line_numbers(t: Buffer) -> bool;

/// What the editing rules see of a text area.
pub struct BufferState {
    pub lines: Seq<Seq<char>>,
    pub row: int,
    pub col: int,
    /// Where the selection started, while one is going on.
    pub anchor: Option<(int, int)>,
    pub line_numbers: bool,
}

/// The state of a text area.
pub open spec fn state_of(t: Buffer) -> BufferState {
    BufferState {
        lines: buffer_of(t),
        row: cursor_of(t).0 as int,
        col: cursor_of(t).1 as int,
        anchor: match anchor_of(t) {
            Some(a) => Some((a.0 as int, a.1 as int)),
            None => None,
        },
        line_numbers: shows_line_numbers(t),
    }
}

/// Whether the cursor stands on a line of the text, at or before its end.
pub open spec fn cursor_in_text(s: BufferState) -> bool {
    0 <= s.row < s.lines.len() && 0 <= s.col <= s.lines[s.row].len()
}

/// The line that the cursor is on.
pub open spec fn current_line(s: BufferState) -> Seq<char> {
    s.lines[s.row]
}

/// The state after a jump to a position: the row no further than the last
/// line, the column no further than the end of that row.
pub open spec fn jumped(s: BufferState, row: int, col: int) -> BufferState {
    let r = if row < s.lines.len() - 1 {
        row
    } else {
        s.lines.len() - 1
    };
    BufferState {
        row: r,
        col: if col < s.lines[r].len() {
            col
        } else {
            s.lines[r].len() as int
        },
        ..s
    }
}

/// The state after `text` went in at the cursor, which moves behind it.
pub open spec fn text_inserted(s: BufferState, text: Seq<char>) -> BufferState {
    let line = current_line(s);
    BufferState {
        lines: s.lines.update(
            s.row,
            line.subrange(0, s.col) + text + line.subrange(s.col, line.len() as int),
        ),
        col: s.col + text.len(),
        ..s
    }
}

/// The state after the line was broken at the cursor, which moves to the
/// start of the new line.
pub open spec fn line_broken(s: BufferState) -> BufferState {
    let line = current_line(s);
    BufferState {
        lines: s.lines.subrange(0, s.row) + seq![
            line.subrange(0, s.col),
            line.subrange(s.col, line.len() as int),
        ] + s.lines.subrange(s.row + 1, s.lines.len() as int),
        row: s.row + 1,
        col: 0,
        ..s
    }
}

/// The state after the character under the cursor was deleted.
pub open spec fn next_char_deleted(s: BufferState) -> BufferState {
    BufferState { lines: s.lines.update(s.row, current_line(s).remove(s.col)), ..s }
}

/// The state after the selection was cut, where it lies within the
/// cursor's line: the text between anchor and cursor is gone, and the
/// cursor stands where it was.
pub open spec fn selection_cut(s: BufferState) -> BufferState {
    let line = current_line(s);
    let a = s.anchor.unwrap().1;
    let lo = if a < s.col {
        a
    } else {
        s.col
    };
    let hi = if a < s.col {
        s.col
    } else {
        a
    };
    BufferState {
        lines: s.lines.update(s.row, line.subrange(0, lo) + line.subrange(hi, line.len() as int)),
        col: lo,
        anchor: None,
        ..s
    }
}

/// The two ends of the selection in the order of the text.
pub open spec fn selected_range(s: BufferState) -> Option<((int, int), (int, int))> {
    match s.anchor {
        Some(a) => Some(
            if a.0 > s.row || (a.0 == s.row && a.1 > s.col) {
                ((s.row, s.col), a)
            } else {
                (a, (s.row, s.col))
            },
        ),
        None => None,
    }
}

/// `TextArea::new`: a text area holding the lines, one empty line where
/// there is none, with the cursor at the start, no selection and no line
/// numbers.
#[verifier::external_body]
pub(crate) fn ta_new(lines: Vec<String>) -> (t: Buffer)
    ensures
        state_of(t) == (BufferState {
            lines: if lines@.len() == 0 {
                seq![Seq::<char>::empty()]
            } else {
                string_texts(lines@)
            },
            row: 0,
            col: 0,
            anchor: None,
            line_numbers: false,
        }),
{
    Buffer { textarea: TextArea::new(lines) }
}

/// `TextArea::lines`: the lines of the buffer.
#[verifier::external_body]
pub(crate) fn ta_lines(t: &Buffer) -> (r: Vec<String>)
    ensures
        string_texts(r@) == buffer_of(*t),
{
    t.textarea.lines().to_vec()
}

/// `TextArea::cursor`: the position of the cursor.
#[verifier::external_body]
pub(crate) fn ta_cursor(t: &Buffer) -> (r: (usize, usize))
    ensures
        (r.0 as nat, r.1 as nat) == cursor_of(*t),
{
    t.textarea.cursor()
}

/// `TextArea::selection_range`: the two ends of the selection in the order
/// of the text; none without a selection.
#[verifier::external_body]
pub(crate) fn ta_selection_range(t: &Buffer) -> (r: Option<((usize, usize), (usize, usize))>)
    ensures
        match r {
            Some(((sr, sc), (er, ec))) => selected_range(state_of(*t)) == Some(
                ((sr as int, sc as int), (er as int, ec as int)),
            ),
            None => selected_range(state_of(*t)).is_none(),
        },
{
    t.textarea.selection_range()
}

/// `TextArea::line_number_style`: whether line numbers are shown.
#[verifier::external_body]
pub(crate) fn ta_has_line_numbers(t: &Buffer) -> (b: bool)
    ensures
        b == shows_line_numbers(*t),
{
    t.textarea.line_number_style().is_some()
}

/// `TextArea::move_cursor` with `CursorMove::Jump`: the cursor goes to the
/// position, brought into the text; everything else stays.
#[verifier::external_body]
pub(crate) fn ta_jump(t: &mut Buffer, row: u16, col: u16)
    ensures
        buffer_of(*old(t)).len() > 0 ==> state_of(*final(t)) == jumped(
            state_of(*old(t)),
            row as int,
            col as int,
        ),
        buffer_of(*final(t)) == buffer_of(*old(t)),
{
    t.textarea.move_cursor(CursorMove::Jump(row, col));
}

/// A move of the cursor within its line.
#[derive(Clone, Copy, Debug, PartialEq, Eq, Structural)]
pub enum Move {
    /// To the start of the line.
    Head,
    /// To the end of the line.
    End,
    /// One character back.
    Back,
}

/// The state after a move within the line; a move back from the start of
/// the line is not covered.
pub open spec fn moved(s: BufferState, m: Move) -> BufferState {
    BufferState {
        col: match m {
            Move::Head => 0,
            Move::End => current_line(s).len() as int,
            Move::Back => s.col - 1,
        },
        ..s
    }
}

/// `TextArea::move_cursor` with `Head`, `End` or `Back`: the cursor moves
/// within its line and everything else stays. From the start of a line,
/// `Back` leads to the line before, of which nothing is said here.
#[verifier::external_body]
pub(crate) fn ta_move(t: &mut Buffer, m: Move)
    ensures
        cursor_of(*old(t)).0 < buffer_of(*old(t)).len() && (m == Move::Back ==> cursor_of(
            *old(t),
        ).1 > 0) ==> state_of(*final(t)) == moved(state_of(*old(t)), m),
        buffer_of(*final(t)) == buffer_of(*old(t)),
{
    t.textarea.move_cursor(
        match m {
            Move::Head => CursorMove::Head,
            Move::End => CursorMove::End,
            Move::Back => CursorMove::Back,
        },
    );
}

/// `TextArea::start_selection`: a selection starts at the cursor;
/// everything else stays.
#[verifier::external_body]
pub(crate) fn ta_start_selection(t: &mut Buffer)
    ensures
        anchor_of(*final(t)) == Some(cursor_of(*old(t))),
        state_of(*final(t)) == (BufferState {
            anchor: Some((state_of(*old(t)).row, state_of(*old(t)).col)),
            ..state_of(*old(t))
        }),
{
    t.textarea.start_selection();
}

/// `TextArea::cancel_selection`: the selection ends; everything else stays.
#[verifier::external_body]
pub(crate) fn ta_cancel_selection(t: &mut Buffer)
    ensures
        anchor_of(*final(t)).is_none(),
        state_of(*final(t)) == (BufferState { anchor: None, ..state_of(*old(t)) }),
{
    t.textarea.cancel_selection();
}

/// `TextArea::delete_next_char`, without a selection and with a character
/// under the cursor: that character goes, and the cursor stays.
#[verifier::external_body]
pub(crate) fn ta_delete_next_char(t: &mut Buffer)
    ensures
        state_of(*old(t)).anchor.is_none() && cursor_in_text(state_of(*old(t))) && state_of(
            *old(t),
        ).col < current_line(state_of(*old(t))).len() ==> state_of(*final(t))
            == next_char_deleted(state_of(*old(t))),
{
    t.textarea.delete_next_char();
}

/// `TextArea::insert_newline`, without a selection: the line is broken at
/// the cursor, which moves to the start of the new line.
#[verifier::external_body]
pub(crate) fn ta_insert_newline(t: &mut Buffer)
    ensures
        state_of(*old(t)).anchor.is_none() && cursor_in_text(state_of(*old(t))) ==> state_of(
            *final(t),
        ) == line_broken(state_of(*old(t))),
{
    t.textarea.insert_newline();
}

/// `TextArea::insert_str`, without a selection and for a text without line
/// breaks: the text goes in at the cursor, which moves behind it.
#[verifier::external_body]
pub(crate) fn ta_insert_str(t: &mut Buffer, s: &str)
    ensures
        state_of(*old(t)).anchor.is_none() && cursor_in_text(state_of(*old(t))) && has_no_break(
            s@,
        ) ==> state_of(*final(t)) == text_inserted(state_of(*old(t)), s@),
{
    t.textarea.insert_str(s);
}

/// `TextArea::insert_char`, without a selection and for a character that is
/// no line break: the character goes in at the cursor, which moves behind
/// it.
#[verifier::external_body]
pub(crate) fn ta_insert_char(t: &mut Buffer, c: char)
    ensures
        state_of(*old(t)).anchor.is_none() && cursor_in_text(state_of(*old(t))) && c != '\n' && c
            != '\r' ==> state_of(*final(t)) == text_inserted(state_of(*old(t)), seq![c]),
{
    t.textarea.insert_char(c);
}

/// `TextArea::cut`, for a selection within the cursor's line: the selected
/// text goes, the cursor stands where it was, and the selection ends.
#[verifier::external_body]
pub(crate) fn ta_cut(t: &mut Buffer)
    ensures
        cursor_in_text(state_of(*old(t))) && state_of(*old(t)).anchor.is_some() && state_of(
            *old(t),
        ).anchor.unwrap().0 == state_of(*old(t)).row && state_of(*old(t)).anchor.unwrap().1
            <= current_line(state_of(*old(t))).len() ==> state_of(*final(t)) == selection_cut(
            state_of(*old(t)),
        ),
{
    t.textarea.cut();
}

/// The most steps that wrapping after a keystroke takes.
pub const MAX_WRAP_STEPS: usize = 500;

/// `n`, or the largest screen coordinate where `n` is beyond it.
pub open spec fn narrowed(n: int) -> int {
    if n <= u16::MAX {
        n
    } else {
        u16::MAX as int
    }
}

/// `n` as a screen coordinate, the largest one where `n` is beyond it.
pub fn narrow(n: usize) -> (r: u16)
    ensures
        r == narrowed(n as int),
{
    if n <= u16::MAX as usize {
        n as u16
    } else {
        u16::MAX
    }
}

/// The text of the buffer, lines joined by line feeds.
pub fn textarea_content(t: &Buffer) -> (r: String)
    ensures
        r@ == joined(buffer_of(*t), seq!['\n']),
{
    let lines = ta_lines(t);
    let mut parts: Vec<Vec<char>> = Vec::new();
    let mut i: usize = 0;
    while i < lines.len()
        invariant
            i <= lines.len(),
            parts@.len() == i,
            forall|k: int| 0 <= k < i ==> #[trigger] parts@[k]@ == lines@[k]@,
        decreases lines.len() - i,
    {
        parts.push(chars_of(lines[i].as_str()));
        i += 1;
    }
    assert(texts(parts@) =~= string_texts(lines@));
    let mut feed: Vec<char> = Vec::new();
    feed.push('\n');
    string_of(&join(&parts, &feed))
}

/// Whether no line of the buffer holds a line feed or a carriage return.
pub open spec fn no_breaks(lines: Seq<Seq<char>>) -> bool {
    forall|i: int| 0 <= i < lines.len() ==> has_no_break(#[trigger] lines[i])
}

/// The state after line `row` was split: the line ends before the space at
/// the break, and the rest follows on a new line after the indent. The
/// cursor keeps its place in the text: where it stood after the break, it
/// goes to the new line, as far behind the indent as it was behind the
/// break; else it stays where it is.
pub open spec fn split_applied(s: BufferState, row: int, split: WrapSplitView) -> BufferState {
    let line = s.lines[row];
    let made = split.indent + line.subrange(split.break_pos + 1, line.len() as int);
    let lines = s.lines.subrange(0, row) + seq![line.subrange(0, split.break_pos), made]
        + s.lines.subrange(row + 1, s.lines.len() as int);
    match split.cursor_col {
        Some(c) => BufferState {
            lines,
            row: row + 1,
            col: if narrowed(c) < made.len() {
                narrowed(c)
            } else {
                made.len() as int
            },
            ..s
        },
        None => BufferState { lines, ..s },
    }
}

/// The split that line `row` needs in an editor `area_width` wide. The
/// cursor counts where it stands on that line.
pub open spec fn needed_split(s: BufferState, row: int, area_width: int) -> Option<
    WrapSplitView,
> {
    if 0 <= row < s.lines.len() {
        wrap_split(
            s.lines[row],
            if s.row == row {
                s.col
            } else {
                0
            },
            text_columns(area_width, s.lines.len(), s.line_numbers),
        )
    } else {
        None
    }
}

/// The state after at most `fuel` splits from line `row` on: the line is
/// split as long as it needs it, each time going on with the line that the
/// split made.
pub open spec fn wrap_steps(s: BufferState, row: int, area_width: int, fuel: nat) -> BufferState
    decreases fuel,
{
    if fuel == 0 {
        s
    } else {
        match needed_split(s, row, area_width) {
            Some(split) => wrap_steps(
                split_applied(s, row, split),
                row + 1,
                area_width,
                (fuel - 1) as nat,
            ),
            None => s,
        }
    }
}

/// Whether the cursor stands on line `row`, or before it at a place that a
/// split of a later line leaves alone.
pub open spec fn cursor_settled(s: BufferState, row: int) -> bool {
    s.row == row || (0 <= s.row < row && s.row < s.lines.len() && 0 <= s.col <= u16::MAX && s.col
        <= s.lines[s.row].len())
}

/// Whether the split of line `row` can be followed exactly: there is no
/// selection, no line holds a line break, a screen coordinate can name the
/// row, and a cursor that stays stands at or before the break.
pub open spec fn split_is_exact(s: BufferState, row: int, split: WrapSplitView) -> bool {
    &&& s.anchor.is_none()
    &&& no_breaks(s.lines)
    &&& row < u16::MAX
    &&& split.cursor_col.is_none() ==> cursor_settled(s, row) && 0 <= s.col <= u16::MAX && (s.row
        == row ==> s.col <= split.break_pos)
}

/// Splits line `row` at the break of `split` and puts the cursor, which
/// stood at `cursor`, where it belongs.
fn split_line(t: &mut Buffer, row: usize, split: &crate::editor::WrapSplit, cursor: (usize, usize))
    requires
        row < buffer_of(*old(t)).len(),
        0 < split.break_pos < buffer_of(*old(t))[row as int].len(),
        split.break_pos <= u16::MAX,
        split@.indent == continuation(buffer_of(*old(t))[row as int]),
        (cursor.0 as nat, cursor.1 as nat) == cursor_of(*old(t)),
    ensures
        split_is_exact(state_of(*old(t)), row as int, split@) ==> state_of(*final(t))
            == split_applied(state_of(*old(t)), row as int, split@) && no_breaks(
            buffer_of(*final(t)),
        ),
{
    let ghost s0 = state_of(*t);
    let ghost known = split_is_exact(s0, row as int, split@);
    let ghost line = s0.lines[row as int];
    let ghost pos = split.break_pos as int;
    let ghost rest = line.subrange(pos + 1, line.len() as int);
    let ghost made = split@.indent + rest;
    ta_jump(t, narrow(row), narrow(split.break_pos));
    proof {
        if known {
            let s1 = state_of(*t);
            assert(s1.row == row && s1.col == pos);
        }
    }
    ta_delete_next_char(t);
    ta_insert_newline(t);
    proof {
        if known {
            let s3 = state_of(*t);
            assert(line.remove(pos).subrange(0, pos) =~= line.subrange(0, pos));
            assert(line.remove(pos).subrange(pos, line.len() - 1) =~= rest);
            assert(s3.lines =~= s0.lines.subrange(0, row as int) + seq![
                line.subrange(0, pos),
                rest,
            ] + s0.lines.subrange(row + 1, s0.lines.len() as int));
            assert(has_no_break(line));
            lemma_continuation_has_no_break(line);
        }
    }
    if !split.indent.as_str().is_empty() {
        ta_insert_str(t, split.indent.as_str());
    }
    proof {
        if known {
            let s4 = state_of(*t);
            assert(rest.subrange(0, 0) + split@.indent + rest.subrange(0, rest.len() as int)
                =~= made);
            assert(split@.indent.len() == 0 ==> made =~= rest);
            assert(s4.lines =~= s0.lines.subrange(0, row as int) + seq![
                line.subrange(0, pos),
                made,
            ] + s0.lines.subrange(row + 1, s0.lines.len() as int));
            assert(s4.col == split@.indent.len());
            assert(s4.row == row + 1);
        }
    }
    match split.cursor_col {
        Some(new_col) => ta_jump(t, narrow(row).saturating_add(1), narrow(new_col)),
        None => ta_jump(t, narrow(cursor.0), narrow(cursor.1)),
    }
    proof {
        if known {
            let s5 = state_of(*t);
            let goal = split_applied(s0, row as int, split@);
            assert(s5.lines =~= goal.lines);
            if split@.cursor_col.is_none() {
                assert(s5.lines[s0.row] == goal.lines[s0.row]);
                if s0.row < row {
                    assert(goal.lines[s0.row] == s0.lines[s0.row]);
                } else {
                    assert(goal.lines[s0.row] == line.subrange(0, pos));
                }
                assert(s5.row == s0.row);
                assert(s5.col == s0.col);
            }
            assert forall|i: int| 0 <= i < s5.lines.len() implies has_no_break(
                #[trigger] s5.lines[i],
            ) by {
                if i < row {
                    assert(s5.lines[i] == s0.lines[i]);
                } else if i == row {
                    assert forall|j: int| 0 <= j < s5.lines[i].len() implies #[trigger] s5.lines[i][j]
                        != '\n' && s5.lines[i][j] != '\r' by {
                        assert(s5.lines[i][j] == line[j]);
                    }
                } else if i == row + 1 {
                    assert forall|j: int| 0 <= j < made.len() implies #[trigger] made[j] != '\n'
                        && made[j] != '\r' by {
                        if j < split@.indent.len() {
                            assert(made[j] == split@.indent[j]);
                        } else {
                            assert(made[j] == line[pos + 1 + (j - split@.indent.len())]);
                        }
                    }
                } else {
                    assert(s5.lines[i] == s0.lines[i - 1]);
                }
            }
        }
    }
}

/// Wraps the line under the cursor if it is too long for the editor, and
/// goes on with the line that the split made, until the line fits, cannot
/// be split, or the step limit is reached. The cursor keeps its place in
/// the text: before a break it stays where it is, after it it moves to the
/// new line with its text.
///
/// The result is stated for a buffer without a selection, without line
/// breaks inside its lines, and with the cursor far enough from the last
/// row that a screen coordinate can name.
pub fn auto_wrap_line(t: &mut Buffer, area_width: u16) -> (steps: usize)
    ensures
        steps <= MAX_WRAP_STEPS,
        steps == 0 ==> *final(t) == *old(t),
        steps > 0 <==> needed_split(
            state_of(*old(t)),
            state_of(*old(t)).row,
            area_width as int,
        ).is_some(),
        state_of(*old(t)).anchor.is_none() && no_breaks(buffer_of(*old(t))) && state_of(
            *old(t),
        ).row + MAX_WRAP_STEPS < u16::MAX ==> state_of(*final(t)) == wrap_steps(
            state_of(*old(t)),
            state_of(*old(t)).row,
            area_width as int,
            MAX_WRAP_STEPS as nat,
        ),
{
    let ghost start = state_of(*t);
    let ghost exact = start.anchor.is_none() && no_breaks(start.lines) && start.row
        + MAX_WRAP_STEPS < u16::MAX;
    let (first_row, _first_col) = ta_cursor(t);
    let mut wrap_row: usize = first_row;
    let mut steps: usize = 0;
    while steps < MAX_WRAP_STEPS
        invariant_except_break
            steps == 0 ==> *t == *old(t),
        invariant
            steps <= MAX_WRAP_STEPS,
            start == state_of(*old(t)),
            exact == (start.anchor.is_none() && no_breaks(start.lines) && start.row
                + MAX_WRAP_STEPS < u16::MAX),
            wrap_row == start.row + steps,
            steps > 0 ==> needed_split(start, start.row, area_width as int).is_some(),
            exact ==> state_of(*t).anchor.is_none() && no_breaks(buffer_of(*t)) && cursor_settled(
                state_of(*t),
                wrap_row as int,
            ) && wrap_steps(
                state_of(*t),
                wrap_row as int,
                area_width as int,
                (MAX_WRAP_STEPS - steps) as nat,
            ) == wrap_steps(start, start.row, area_width as int, MAX_WRAP_STEPS as nat),
        ensures
            steps == 0 ==> *t == *old(t),
            steps > 0 <==> needed_split(start, start.row, area_width as int).is_some(),
            exact ==> state_of(*t) == wrap_steps(
                start,
                start.row,
                area_width as int,
                MAX_WRAP_STEPS as nat,
            ),
        decreases MAX_WRAP_STEPS - steps,
    {
        let cursor = ta_cursor(t);
        let lines = ta_lines(t);
        if wrap_row >= lines.len() {
            break ;
        }
        assert(string_texts(lines@)[wrap_row as int] == lines@[wrap_row as int]@);
        let text_width = available_text_width(area_width, lines.len(), ta_has_line_numbers(t));
        let col = if cursor.0 == wrap_row {
            cursor.1
        } else {
            0
        };
        let split = match wrap_point(lines[wrap_row].as_str(), col, text_width) {
            Some(s) => s,
            None => {
                break ;
            },
        };
        let ghost before = state_of(*t);
        assert(needed_split(before, wrap_row as int, area_width as int) == Some(split@));
        split_line(t, wrap_row, &split, cursor);
        proof {
            if exact {
                assert(split_is_exact(before, wrap_row as int, split@));
                let after = state_of(*t);
                if split@.cursor_col.is_none() {
                    if before.row < wrap_row {
                        assert(after.lines[before.row] == before.lines[before.row]);
                    } else {
                        assert(after.lines[before.row] == before.lines[wrap_row as int].subrange(
                            0,
                            split.break_pos as int,
                        ));
                    }
                }
                assert(cursor_settled(after, wrap_row + 1));
            }
        }
        wrap_row += 1;
        steps += 1;
    }
    steps
}

/// A cursor that stands before the line that is wrapped stays where it is,
/// however many lines the wrapping makes.
pub proof fn lemma_wrap_leaves_cursor_before(s: BufferState, row: int, area_width: int, fuel: nat)
    requires
        s.row < row,
    ensures
        wrap_steps(s, row, area_width, fuel).row == s.row,
        wrap_steps(s, row, area_width, fuel).col == s.col,
    decreases fuel,
{
    if fuel > 0 {
        match needed_split(s, row, area_width) {
            Some(split) => {
                lemma_wrap_leaves_cursor_before(
                    split_applied(s, row, split),
                    row + 1,
                    area_width,
                    (fuel - 1) as nat,
                );
            },
            None => {},
        }
    }
}

/// Wrapping keeps the cursor on its character: a cursor at or before the
/// break of its line stays at its row and column, whatever is split after
/// it.
pub proof fn lemma_wrap_keeps_cursor_before_break(s: BufferState, area_width: int, fuel: nat)
    requires
        needed_split(s, s.row, area_width).is_some(),
        s.col <= needed_split(s, s.row, area_width).unwrap().break_pos,
    ensures
        wrap_steps(s, s.row, area_width, fuel).row == s.row,
        wrap_steps(s, s.row, area_width, fuel).col == s.col,
{
    if fuel > 0 {
        let split = needed_split(s, s.row, area_width).unwrap();
        lemma_wrap_leaves_cursor_before(
            split_applied(s, s.row, split),
            s.row + 1,
            area_width,
            (fuel - 1) as nat,
        );
    }
}

/// A cursor behind the break of its line goes to the new line with its
/// text: after one split it stands as far behind the indent as it stood
/// behind the break.
pub proof fn lemma_split_moves_cursor_behind_break(s: BufferState, area_width: int)
    requires
        needed_split(s, s.row, area_width).is_some(),
        needed_split(s, s.row, area_width).unwrap().break_pos < s.col < s.lines[s.row].len(),
        needed_split(s, s.row, area_width).unwrap().indent.len() + s.col <= u16::MAX,
    ensures
        ({
            let split = needed_split(s, s.row, area_width).unwrap();
            let after = split_applied(s, s.row, split);
            &&& after.row == s.row + 1
            &&& after.col == split.indent.len() + (s.col - split.break_pos - 1)
            &&& after.lines[after.row][after.col] == s.lines[s.row][s.col]
        }),
{
    let split = needed_split(s, s.row, area_width).unwrap();
    let line = s.lines[s.row];
    let after = split_applied(s, s.row, split);
    let rest = line.subrange(split.break_pos + 1, line.len() as int);
    let made = split.indent + rest;
    let moved = split.indent.len() + (s.col - split.break_pos - 1);
    assert(split.cursor_col == Some(moved));
    assert(narrowed(moved) == moved);
    assert(moved < made.len());
    assert(after.lines[s.row + 1] == made);
    assert(made[moved] == rest[s.col - split.break_pos - 1]);
}

/// Whether a character stands under the cursor.
pub open spec fn on_a_character(s: BufferState) -> bool {
    cursor_in_text(s) && s.col < current_line(s).len()
}

/// The state with the word under the cursor selected: the selection starts
/// at the start of the word and the cursor stands at its end. Unchanged
/// where no character stands under the cursor.
pub open spec fn word_selected(s: BufferState) -> BufferState {
    if on_a_character(s) {
        let span = word_span(current_line(s), s.col).unwrap();
        BufferState { anchor: Some((s.row, span.0)), col: span.1, ..s }
    } else {
        s
    }
}

/// Selects the word under the cursor. Returns whether there was a word;
/// where there was none, nothing changes.
///
/// Where the selection lands is stated for positions that a screen
/// coordinate can name.
pub fn select_word_at_cursor(t: &mut Buffer) -> (selected: bool)
    ensures
        buffer_of(*final(t)) == buffer_of(*old(t)),
        selected == on_a_character(state_of(*old(t))),
        !selected ==> *final(t) == *old(t),
        state_of(*old(t)).row <= u16::MAX && current_line(state_of(*old(t))).len() <= u16::MAX
            ==> state_of(*final(t)) == word_selected(state_of(*old(t))),
{
    let (row, col) = ta_cursor(t);
    let lines = ta_lines(t);
    if row >= lines.len() {
        return false;
    }
    assert(string_texts(lines@)[row as int] == lines@[row as int]@);
    let chars = chars_of(lines[row].as_str());
    match word_range(&chars, col) {
        Some((start, end)) => {
            ta_cancel_selection(t);
            ta_jump(t, narrow(row), narrow(start));
            ta_start_selection(t);
            ta_jump(t, narrow(row), narrow(end));
            true
        },
        None => false,
    }
}

/// The state with the paragraph around the cursor selected: the selection
/// starts at the start of the first line of the paragraph and the cursor
/// stands at the end of its last line. Unchanged where the cursor is on no
/// line of the buffer.
pub open spec fn paragraph_selected(s: BufferState) -> BufferState {
    if 0 <= s.row < s.lines.len() {
        let last = paragraph_end(s.lines, s.row);
        BufferState {
            anchor: Some((paragraph_start(s.lines, s.row), 0int)),
            row: last,
            col: s.lines[last].len() as int,
            ..s
        }
    } else {
        s
    }
}

/// Selects the paragraph around the cursor: the lines around it up to the
/// next empty lines. Returns whether the cursor was in the buffer; where it
/// was not, nothing changes.
///
/// Where the selection lands is stated for positions that a screen
/// coordinate can name.
pub fn select_paragraph_at_cursor(t: &mut Buffer) -> (selected: bool)
    ensures
        buffer_of(*final(t)) == buffer_of(*old(t)),
        selected == (state_of(*old(t)).row < buffer_of(*old(t)).len()),
        !selected ==> *final(t) == *old(t),
        buffer_of(*old(t)).len() <= u16::MAX && paragraph_selected(state_of(*old(t))).col
            <= u16::MAX ==> state_of(*final(t)) == paragraph_selected(state_of(*old(t))),
{
    let (row, _col) = ta_cursor(t);
    let lines = ta_lines(t);
    match paragraph_range(lines.as_slice(), row) {
        Some((start, end, end_col)) => {
            assert(string_texts(lines@)[end as int] == lines@[end as int]@);
            ta_cancel_selection(t);
            ta_jump(t, narrow(start), 0);
            ta_start_selection(t);
            ta_jump(t, narrow(end), narrow(end_col));
            true
        },
        None => false,
    }
}

/// The state after a plain click at a position: the selection that was
/// going on ends, the cursor goes to the position, brought into the text,
/// and a new selection starts there.
pub open spec fn clicked(s: BufferState, row: int, col: int) -> BufferState {
    let at = jumped(BufferState { anchor: None, ..s }, row, col);
    BufferState { anchor: Some((at.row, at.col)), ..at }
}

/// The state after the given number of clicks in a row at a position: the
/// second selects the word there, the third the paragraph, any other is a
/// plain click.
pub open spec fn clicked_times(s: BufferState, clicks: u8, row: int, col: int) -> BufferState {
    if clicks == 2 {
        word_selected(jumped(s, row, col))
    } else if clicks == 3 {
        paragraph_selected(jumped(s, row, col))
    } else {
        clicked(s, row, col)
    }
}

/// Whether a screen coordinate can name the ends of the selection that the
/// clicks make.
pub open spec fn selection_fits(s: BufferState, clicks: u8, row: int, col: int) -> bool {
    if clicks == 2 {
        current_line(jumped(s, row, col)).len() <= u16::MAX
    } else if clicks == 3 {
        s.lines.len() <= u16::MAX && paragraph_selected(jumped(s, row, col)).col <= u16::MAX
    } else {
        true
    }
}

/// Handles a click in the text at a buffer position, given how many clicks
/// came in a row. Returns whether a drag may follow, which is after a plain
/// click.
///
/// Where the selection lands is stated for positions that a screen
/// coordinate can name.
pub fn click_at(t: &mut Buffer, clicks: u8, row: u16, col: u16) -> (dragging: bool)
    ensures
        dragging == (clicks != 2 && clicks != 3),
        buffer_of(*final(t)) == buffer_of(*old(t)),
        buffer_of(*old(t)).len() > 0 && selection_fits(
            state_of(*old(t)),
            clicks,
            row as int,
            col as int,
        ) ==> state_of(*final(t)) == clicked_times(
            state_of(*old(t)),
            clicks,
            row as int,
            col as int,
        ),
{
    if clicks == 2 {
        ta_jump(t, row, col);
        select_word_at_cursor(t);
        false
    } else if clicks == 3 {
        ta_jump(t, row, col);
        select_paragraph_at_cursor(t);
        false
    } else {
        ta_cancel_selection(t);
        ta_jump(t, row, col);
        ta_start_selection(t);
        true
    }
}

/// The state after a drag ended: a selection that holds nothing ends, any
/// other stays.
pub open spec fn drag_ended(s: BufferState) -> BufferState {
    if s.anchor == Some((s.row, s.col)) {
        BufferState { anchor: None, ..s }
    } else {
        s
    }
}

/// Ends a drag with the mouse: a selection that holds nothing is given up.
pub fn end_drag(t: &mut Buffer)
    ensures
        state_of(*final(t)) == drag_ended(state_of(*old(t))),
        state_of(*old(t)).anchor != Some((state_of(*old(t)).row, state_of(*old(t)).col))
            ==> *final(t) == *old(t),
{
    match ta_selection_range(t) {
        Some((start, end)) => {
            if start.0 == end.0 && start.1 == end.1 {
                ta_cancel_selection(t);
            }
        },
        None => {},
    }
}

/// Moves the cursor to the start of its line and ends the selection.
pub fn go_to_line_start(t: &mut Buffer)
    ensures
        buffer_of(*final(t)) == buffer_of(*old(t)),
        state_of(*old(t)).row < buffer_of(*old(t)).len() ==> state_of(*final(t))
            == (BufferState { anchor: None, col: 0, ..state_of(*old(t)) }),
{
    ta_cancel_selection(t);
    ta_move(t, Move::Head);
}

/// What follows every edit: the modified flag is set anew, and the line
/// under the cursor is wrapped if it got too long. Returns the number of
/// splits.
pub fn after_edit(t: &mut Buffer, state: &mut WrapState, area_width: u16) -> (steps: usize)
    ensures
        final(state).modified == (joined(buffer_of(*old(t)), seq!['\n']) != old(
            state,
        ).wrapped_original@),
        final(state).original_content == old(state).original_content,
        final(state).wrapped_original == old(state).wrapped_original,
        final(state).last_wrap_width == old(state).last_wrap_width,
        steps <= MAX_WRAP_STEPS,
        steps == 0 ==> *final(t) == *old(t),
        steps > 0 <==> needed_split(
            state_of(*old(t)),
            state_of(*old(t)).row,
            area_width as int,
        ).is_some(),
        state_of(*old(t)).anchor.is_none() && no_breaks(buffer_of(*old(t))) && state_of(
            *old(t),
        ).row + MAX_WRAP_STEPS < u16::MAX ==> state_of(*final(t)) == wrap_steps(
            state_of(*old(t)),
            state_of(*old(t)).row,
            area_width as int,
            MAX_WRAP_STEPS as nat,
        ),
{
    state.update_modified(t);
    auto_wrap_line(t, area_width)
}

/// The text between the two ends of the selection; none without a
/// selection, or where the selection does not lie in the text.
pub open spec fn selection_of(s: BufferState) -> Option<Seq<char>> {
    match selected_range(s) {
        Some(((sr, sc), (er, ec))) => selection_text(s.lines, sr, sc, er, ec),
        None => None,
    }
}

/// The selected text, if a selection is going on.
pub fn get_selected_text(t: &Buffer) -> (r: Option<String>)
    ensures
        match r {
            Some(text) => selection_of(state_of(*t)) == Some(text@),
            None => selection_of(state_of(*t)).is_none(),
        },
{
    match ta_selection_range(t) {
        Some(((sr, sc), (er, ec))) => {
            let lines = ta_lines(t);
            selected_text(lines.as_slice(), sr, sc, er, ec)
        },
        None => None,
    }
}

/// What Enter does with the cursor at column `col` of `line`: the
/// continuation of the line where the cursor stands at its end, else
/// nothing special.
pub open spec fn enter_action(line: Seq<char>, col: int) -> ContinuationView {
    if col == line.len() {
        continuation_of(line)
    } else {
        ContinuationView::Nothing
    }
}

/// Decides what Enter does at the cursor.
pub fn enter_continuation(line: &str, col: usize) -> (r: Continuation)
    ensures
        r@ == enter_action(line@, col as int),
{
    if col != chars_of(line).len() {
        Continuation::Nothing
    } else {
        analyze_line_for_continuation(line)
    }
}

/// What Enter does in the state `s`.
pub open spec fn enter_action_in(s: BufferState) -> ContinuationView {
    if 0 <= s.row < s.lines.len() {
        enter_action(current_line(s), s.col)
    } else {
        ContinuationView::Nothing
    }
}

/// The state after Enter continued the list or quote of the cursor's line
/// with `prefix`: a new line follows that holds the prefix, and the cursor
/// stands behind it.
pub open spec fn continued(s: BufferState, prefix: Seq<char>) -> BufferState {
    BufferState {
        lines: s.lines.subrange(0, s.row + 1) + seq![prefix] + s.lines.subrange(
            s.row + 1,
            s.lines.len() as int,
        ),
        row: s.row + 1,
        col: prefix.len() as int,
        ..s
    }
}

/// The state after Enter cleared the cursor's line.
pub open spec fn cleared(s: BufferState) -> BufferState {
    BufferState { lines: s.lines.update(s.row, Seq::empty()), col: 0, anchor: None, ..s }
}

/// Handles Enter at the end of a list item or quote: the next line starts
/// with the marker, or an empty item is cleared. Returns whether the key
/// was handled; where it was not, the buffer is untouched.
///
/// A continued line is stated for a buffer without a selection and a
/// marker without line breaks.
pub fn handle_enter_continuation(t: &mut Buffer) -> (handled: bool)
    ensures
        !handled ==> *final(t) == *old(t),
        handled == !(enter_action_in(state_of(*old(t))) is Nothing),
        enter_action_in(state_of(*old(t))) is ClearLine ==> state_of(*final(t)) == cleared(
            state_of(*old(t)),
        ),
        match enter_action_in(state_of(*old(t))) {
            ContinuationView::Continue(prefix) => state_of(*old(t)).anchor.is_none()
                && has_no_break(prefix) ==> state_of(*final(t)) == continued(
                state_of(*old(t)),
                prefix,
            ),
            _ => true,
        },
{
    let (row, col) = ta_cursor(t);
    let lines = ta_lines(t);
    if row >= lines.len() {
        return false;
    }
    assert(string_texts(lines@)[row as int] == lines@[row as int]@);
    let ghost s0 = state_of(*t);
    let ghost line = current_line(s0);
    match enter_continuation(lines[row].as_str(), col) {
        Continuation::Continue(prefix) => {
            ta_insert_newline(t);
            ta_insert_str(t, prefix.as_str());
            proof {
                if s0.anchor.is_none() && has_no_break(prefix@) {
                    let empty = line.subrange(s0.col, line.len() as int);
                    assert(line.subrange(0, s0.col) =~= line);
                    assert(empty.subrange(0, 0) + prefix@ + empty.subrange(0, empty.len() as int)
                        =~= prefix@);
                    assert(state_of(*t).lines =~= continued(s0, prefix@).lines);
                }
            }
            true
        },
        Continuation::ClearLine => {
            ta_move(t, Move::Head);
            ta_start_selection(t);
            ta_move(t, Move::End);
            ta_cut(t);
            proof {
                assert(line.subrange(0, 0) + line.subrange(line.len() as int, line.len() as int)
                    =~= Seq::<char>::empty());
            }
            true
        },
        Continuation::Nothing => false,
    }
}

/// The character that closes the pair that `ch` opens after `prev`: none
/// where `ch` opens no pair, for a backtick after a backtick, and for a
/// quote after a letter or digit.
pub open spec fn closing_after(ch: char, prev: Option<char>) -> Option<char> {
    if closing_of(ch).is_none() || (ch == '`' && prev == Some('`')) || ((ch == '\'' || ch == '"')
        && prev.is_some() && alphanumeric(prev.unwrap())) {
        None
    } else {
        closing_of(ch)
    }
}

/// Decides whether a typed character gets its closing partner.
pub fn auto_close_after(ch: char, prev: Option<char>) -> (r: Option<char>)
    ensures
        r == closing_after(ch, prev),
{
    let close = match auto_close_pair(ch) {
        Some(c) => c,
        None => {
            return None;
        },
    };
    if ch == '`' && should_skip_backtick_pair(prev) {
        return None;
    }
    if should_skip_quote_pair(ch, prev) {
        return None;
    }
    Some(close)
}

/// The character before the cursor; none at the start of a line or outside
/// the text.
pub open spec fn char_before(s: BufferState) -> Option<char> {
    if 0 <= s.row < s.lines.len() && 0 < s.col <= current_line(s).len() {
        Some(current_line(s)[s.col - 1])
    } else {
        None
    }
}

/// The state after a pair went in at the cursor, which stands between its
/// two characters.
pub open spec fn pair_inserted(s: BufferState, open: char, close: char) -> BufferState {
    BufferState { col: s.col + 1, ..text_inserted(s, seq![open, close]) }
}

/// Handles a typed character that opens a pair: both characters go in and
/// the cursor stands between them. Returns whether the key was handled;
/// where it was not, the buffer is untouched.
///
/// The buffer after a pair went in is stated for a buffer without a
/// selection.
pub fn handle_auto_close(t: &mut Buffer, ch: char) -> (handled: bool)
    ensures
        !handled ==> *final(t) == *old(t),
        handled == closing_after(ch, char_before(state_of(*old(t)))).is_some(),
        handled && state_of(*old(t)).anchor.is_none() && cursor_in_text(state_of(*old(t)))
            ==> state_of(*final(t)) == pair_inserted(
            state_of(*old(t)),
            ch,
            closing_after(ch, char_before(state_of(*old(t)))).unwrap(),
        ),
{
    let (row, col) = ta_cursor(t);
    let lines = ta_lines(t);
    let prev = if row < lines.len() && col > 0 {
        assert(string_texts(lines@)[row as int] == lines@[row as int]@);
        let chars = chars_of(lines[row].as_str());
        if col <= chars.len() {
            Some(chars[col - 1])
        } else {
            None
        }
    } else {
        None
    };
    let ghost s0 = state_of(*t);
    match auto_close_after(ch, prev) {
        Some(close) => {
            ta_insert_char(t, ch);
            ta_insert_char(t, close);
            ta_move(t, Move::Back);
            proof {
                if s0.anchor.is_none() && cursor_in_text(s0) {
                    let line = current_line(s0);
                    let once = line.subrange(0, s0.col) + seq![ch] + line.subrange(
                        s0.col,
                        line.len() as int,
                    );
                    assert(once.subrange(0, s0.col + 1) + seq![close] + once.subrange(
                        s0.col + 1,
                        once.len() as int,
                    ) =~= line.subrange(0, s0.col) + seq![ch, close] + line.subrange(
                        s0.col,
                        line.len() as int,
                    ));
                    assert(state_of(*t).lines =~= pair_inserted(s0, ch, close).lines);
                }
            }
            true
        },
        None => false,
    }
}

/// What the editor remembers of the text beside the buffer.
pub struct WrapState {
    pub modified: bool,
    /// The text as it was loaded or last saved, never wrapped.
    pub original_content: String,
    /// The text as loaded, wrapped at the width of the last reflow.
    pub wrapped_original: String,
    /// The width of the last reflow; 0 before the first.
    pub last_wrap_width: usize,
}

impl WrapState {
    /// The state for a text that was just loaded.
    pub fn new(content: String) -> (s: WrapState)
        ensures
            !s.modified,
            s.original_content@ == content@,
            s.wrapped_original@ == content@,
            s.last_wrap_width == 0,
    {
        let wrapped = content.clone();
        WrapState {
            modified: false,
            original_content: content,
            wrapped_original: wrapped,
            last_wrap_width: 0,
        }
    }

    /// Whether the text has to be wrapped again for the width.
    pub fn needs_reflow(&self, width: usize) -> (b: bool)
        ensures
            b == (width > 0 && width != self.last_wrap_width),
    {
        width > 0 && width != self.last_wrap_width
    }

    /// Sets the modified flag by comparing the buffer with the wrapped
    /// text.
    pub fn update_modified(&mut self, t: &Buffer)
        ensures
            final(self).modified == (joined(buffer_of(*t), seq!['\n']) != old(
                self,
            ).wrapped_original@),
            final(self).original_content == old(self).original_content,
            final(self).wrapped_original == old(self).wrapped_original,
            final(self).last_wrap_width == old(self).last_wrap_width,
    {
        let content = textarea_content(t);
        self.modified = !same_str(content.as_str(), self.wrapped_original.as_str());
    }

    /// Notes that the text was saved as `content`.
    pub fn mark_saved(&mut self, content: String)
        ensures
            !final(self).modified,
            final(self).original_content == content,
            final(self).wrapped_original == old(self).wrapped_original,
            final(self).last_wrap_width == old(self).last_wrap_width,
    {
        self.original_content = content;
        self.modified = false;
    }
}

/// Wraps the whole buffer again for a new width and puts the cursor back,
/// as near to where it was as the new lines allow. A width of 0 changes
/// nothing. The new text area has no selection and the styles of a fresh
/// one.
///
/// Where the cursor lands is stated for positions that a screen coordinate
/// can name.
pub fn reflow_content(t: &mut Buffer, state: &mut WrapState, new_width: usize) -> (done: bool)
    ensures
        done == (new_width != 0),
        !done ==> *final(t) == *old(t) && *final(state) == *old(state),
        done ==> ({
            let r = reflowed(
                old(state).original_content@,
                joined(buffer_of(*old(t)), seq!['\n']),
                old(state).modified,
                state_of(*old(t)).row,
                state_of(*old(t)).col,
                new_width as int,
            );
            &&& buffer_of(*final(t)) == r.lines
            &&& state_of(*final(t)).anchor.is_none()
            &&& !state_of(*final(t)).line_numbers
            &&& final(state).modified == r.modified
            &&& final(state).wrapped_original@ == r.wrapped_original
            &&& final(state).original_content == old(state).original_content
            &&& final(state).last_wrap_width == new_width
            &&& r.lines.len() <= u16::MAX && r.lines[r.cursor.0].len() <= u16::MAX ==> cursor_of(
                *final(t),
            ) == (r.cursor.0 as nat, r.cursor.1 as nat)
        }),
{
    if new_width == 0 {
        return false;
    }
    let cursor = ta_cursor(t);
    let current = textarea_content(t);
    let r = reflow(
        state.original_content.as_str(),
        current.as_str(),
        state.modified,
        cursor,
        new_width,
    );
    let (row, col) = r.cursor;
    proof {
        crate::editor::lemma_buffer_lines_nonempty(
            crate::table_format::hard_wrapped(
                if state.modified {
                    current@
                } else {
                    state.original_content@
                },
                new_width as int,
            ),
        );
    }
    *t = ta_new(r.lines);
    ta_jump(t, narrow(row), narrow(col));
    state.wrapped_original = r.wrapped_original;
    state.last_wrap_width = new_width;
    state.modified = r.modified;
    true
}

/// Formats the buffer for saving: tables are laid out for the width of the
/// editor and long lines wrapped. Where that changes the text, the buffer
/// is replaced by a fresh text area and the cursor put back, as near to
/// where it was as the new lines allow; else nothing changes. Returns the
/// text to write.
///
/// Where the cursor lands is stated for positions that a screen coordinate
/// can name.
pub fn prepare_save(t: &mut Buffer, area_width: u16) -> (content: String)
    ensures
        content@ == joined(buffer_of(*final(t)), seq!['\n']),
        ({
            let before = joined(buffer_of(*old(t)), seq!['\n']);
            let width = text_columns(
                area_width as int,
                buffer_of(*old(t)).len(),
                shows_line_numbers(*old(t)),
            );
            let after = buffer_lines(save_text(before, width));
            let cursor = clamped_cursor(after, state_of(*old(t)).row, state_of(*old(t)).col);
            if save_text(before, width) == before {
                *final(t) == *old(t)
            } else {
                &&& buffer_of(*final(t)) == after
                &&& state_of(*final(t)).anchor.is_none()
                &&& !state_of(*final(t)).line_numbers
                &&& after.len() <= u16::MAX && after[cursor.0].len() <= u16::MAX ==> cursor_of(
                    *final(t),
                ) == (cursor.0 as nat, cursor.1 as nat)
            }
        }),
{
    let content = textarea_content(t);
    let lines = ta_lines(t);
    let width = available_text_width(area_width, lines.len(), ta_has_line_numbers(t));
    let cursor = ta_cursor(t);
    match format_for_save(content.as_str(), width, cursor) {
        Some(f) => {
            proof {
                crate::editor::lemma_buffer_lines_nonempty(save_text(content@, width as int));
            }
            *t = ta_new(f.lines);
            ta_jump(t, narrow(f.cursor.0), narrow(f.cursor.1));
            textarea_content(t)
        },
        None => content,
    }
}

} // verus!
