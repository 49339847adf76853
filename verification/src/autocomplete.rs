//! Editor-side typing aids: bracket pairing and list continuation.

use vstd::prelude::*;
use crate::text::{
    chars_of, concat, decimal, find_from, find_text, format_number, has_prefix, alphanumeric,
    match_at, number_of, parse_number, same_text, skip_ws, slice, string_of, ws_end,
};

verus! {

/// What pressing Enter at the end of a line should do.
#[derive(Debug, PartialEq)]
pub enum Continuation {
    /// Insert a new line with the given prefix (e.g. "- ", "3. ", "> ").
    Continue(String),
    /// The line is an empty list item or quote: clear it.
    ClearLine,
    /// No special continuation.
    Nothing,
}

/// A `Continuation` with its prefix as a sequence of characters.
pub enum ContinuationView {
    Continue(Seq<char>),
    ClearLine,
    Nothing,
}

impl View for Continuation {
    type V = ContinuationView;

    open spec fn view(&self) -> ContinuationView {
        match self {
            Continuation::Continue(p) => ContinuationView::Continue(p@),
            Continuation::ClearLine => ContinuationView::ClearLine,
            Continuation::Nothing => ContinuationView::Nothing,
        }
    }
}

/// Whether `c` marks an item of an unordered list.
pub open spec fn is_bullet(c: char) -> bool {
    c == '-' || c == '*' || c == '+'
}

/// What follows an ordered item: nothing after an empty one, else the next
/// number; and an item that is only `N.` is cleared.
pub open spec fn ordered_continuation(indent: Seq<char>, t: Seq<char>) -> ContinuationView {
    let dot = find_from(t, ". "@, 0);
    if dot >= 0 && number_of(t.subrange(0, dot)).is_some() {
        if dot + 2 == t.len() {
            ContinuationView::ClearLine
        } else {
            ContinuationView::Continue(
                indent + decimal((number_of(t.subrange(0, dot)).unwrap() + 1) as nat) + ". "@,
            )
        }
    } else if t.len() > 0 && t.last() == '.' && number_of(t.subrange(0, t.len() - 1)).is_some() {
        ContinuationView::ClearLine
    } else {
        ContinuationView::Nothing
    }
}

/// What Enter does at the end of `line`. With `indent` the leading whitespace
/// and `t` the rest of the line: a quote marker alone, a task box alone or a
/// bullet alone clears the line; a quoted line continues with `> `, a task
/// with an unchecked box, a bullet item with its bullet, an ordered item with
/// the next number, each after `indent`.
pub open spec fn continuation_of(line: Seq<char>) -> ContinuationView {
    let lead = ws_end(line, 0);
    let indent = line.subrange(0, lead);
    let t = line.subrange(lead, line.len() as int);
    if t == ">"@ || t == "> "@ {
        ContinuationView::ClearLine
    } else if has_prefix(t, ">"@) {
        ContinuationView::Continue(indent + "> "@)
    } else if t == "- [ ] "@ || t == "- [ ]"@ || t == "- [x] "@ || t == "- [x]"@ {
        ContinuationView::ClearLine
    } else if has_prefix(t, "- [ ] "@) || has_prefix(t, "- [x] "@) {
        ContinuationView::Continue(indent + "- [ ] "@)
    } else if t.len() >= 1 && is_bullet(t[0]) && (t.len() == 1 || (t.len() == 2 && t[1] == ' ')) {
        ContinuationView::ClearLine
    } else if t.len() > 2 && is_bullet(t[0]) && t[1] == ' ' {
        ContinuationView::Continue(indent + seq![t[0], ' '])
    } else {
        ordered_continuation(indent, t)
    }
}

fn is_literal(t: &Vec<char>, lit: &str) -> (r: bool)
    ensures
        r == (t@ == lit@),
{
    same_text(t, &chars_of(lit))
}

fn starts_with_literal(t: &Vec<char>, lit: &str) -> (r: bool)
    ensures
        r == has_prefix(t@, lit@),
{
    match_at(t, &chars_of(lit), 0)
}

fn continue_with(indent: &Vec<char>, marker: &Vec<char>) -> (r: Continuation)
    ensures
        r@ == ContinuationView::Continue(indent@ + marker@),
{
    Continuation::Continue(string_of(&concat(indent, marker)))
}

fn analyze_ordered(indent: &Vec<char>, t: &Vec<char>) -> (r: Continuation)
    ensures
        r@ == ordered_continuation(indent@, t@),
{
    if let Some(dot) = find_text(t, &chars_of(". "), 0) {
        if let Some(n) = parse_number(&slice(t, 0, dot)) {
            proof {
                reveal_strlit(". ");
            }
            if dot + 2 == t.len() {
                return Continuation::ClearLine;
            }
            let mut marker = format_number(n as u128 + 1);
            crate::text::append(&mut marker, &chars_of(". "));
            let r = continue_with(indent, &marker);
            assert(indent@ + marker@ =~= indent@ + decimal((n + 1) as nat) + ". "@);
            return r;
        }
    }
    if t.len() > 0 && t[t.len() - 1] == '.' {
        if parse_number(&slice(t, 0, t.len() - 1)).is_some() {
            return Continuation::ClearLine;
        }
    }
    Continuation::Nothing
}

/// The same analysis on characters.
pub fn analyze_chars(line: &Vec<char>) -> (r: Continuation)
    ensures
        r@ == continuation_of(line@),
{
    let lead = skip_ws(line, 0);
    let indent = slice(line, 0, lead);
    let t = slice(line, lead, line.len());
    if is_literal(&t, ">") || is_literal(&t, "> ") {
        return Continuation::ClearLine;
    }
    if starts_with_literal(&t, ">") {
        return continue_with(&indent, &chars_of("> "));
    }
    if is_literal(&t, "- [ ] ") || is_literal(&t, "- [ ]") || is_literal(&t, "- [x] ")
        || is_literal(&t, "- [x]") {
        return Continuation::ClearLine;
    }
    if starts_with_literal(&t, "- [ ] ") || starts_with_literal(&t, "- [x] ") {
        return continue_with(&indent, &chars_of("- [ ] "));
    }
    if t.len() >= 1 && (t[0] == '-' || t[0] == '*' || t[0] == '+') {
        if t.len() == 1 || (t.len() == 2 && t[1] == ' ') {
            return Continuation::ClearLine;
        }
        if t.len() > 2 && t[1] == ' ' {
            let mut marker: Vec<char> = Vec::new();
            marker.push(t[0]);
            marker.push(' ');
            assert(marker@ =~= seq![t@[0], ' ']);
            return continue_with(&indent, &marker);
        }
    }
    analyze_ordered(&indent, &t)
}

/// Analyzes the current line to decide what should happen when Enter is
/// pressed at the end of the line.
pub fn analyze_line_for_continuation(line: &str) -> (r: Continuation)
    ensures
        r@ == continuation_of(line@),
{
    analyze_chars(&chars_of(line))
}

/// The closing character that pairs with `ch`, if `ch` opens a pair.
pub open spec fn closing_of(ch: char) -> Option<char> {
    if ch == '(' {
        Some(')')
    } else if ch == '[' {
        Some(']')
    } else if ch == '{' {
        Some('}')
    } else if ch == '`' || ch == '"' || ch == '\'' {
        Some(ch)
    } else {
        None
    }
}

/// Determines the closing character for an auto-close pair.
pub fn auto_close_pair(ch: char) -> (r: Option<char>)
    ensures
        r == closing_of(ch),
{
    match ch {
        '(' => Some(')'),
        '[' => Some(']'),
        '{' => Some('}'),
        '`' => Some('`'),
        '"' => Some('"'),
        '\'' => Some('\''),
        _ => None,
    }
}

/// Returns true if backtick auto-pairing should be skipped: the previous
/// character is a backtick too, as while typing a code fence.
pub fn should_skip_backtick_pair(prev_char: Option<char>) -> (r: bool)
    ensures
        r == (prev_char == Some('`')),
{
    match prev_char {
        Some(c) => c == '`',
        None => false,
    }
}

/// Returns true if quote auto-pairing should be skipped: a quote typed right
/// after a letter or digit, as in a contraction.
pub fn should_skip_quote_pair(ch: char, prev_char: Option<char>) -> (r: bool)
    ensures
        r == ((ch == '\'' || ch == '"') && prev_char.is_some() && alphanumeric(
            prev_char.unwrap(),
        )),
{
    if ch == '\'' || ch == '"' {
        if let Some(prev) = prev_char {
            return prev.is_alphanumeric();
        }
    }
    false
}

} // verus!
