//! The inline rename input: a line of text with a cursor.

use vstd::prelude::*;
use crate::app_state::RenameCommand;
use crate::text::{chars_of, same_text, string_of, trim, trimmed};

verus! {

/// The text of the rename input and the position of its cursor.
pub struct RenameInput {
    pub buf: Vec<char>,
    pub cursor: usize,
}

/// The position that a cursor at `cursor` edits a text of length `len` at:
/// a cursor beyond the text stands at its end.
pub open spec fn edit_position(cursor: int, len: int) -> int {
    if cursor < len {
        cursor
    } else {
        len
    }
}

/// The text and cursor after `c` was typed at the cursor; nothing changes
/// where the text cannot grow any more.
pub open spec fn typed(buf: Seq<char>, cursor: int, c: char) -> (Seq<char>, int) {
    let at = edit_position(cursor, buf.len() as int);
    if buf.len() < usize::MAX {
        (buf.subrange(0, at) + seq![c] + buf.subrange(at, buf.len() as int), at + 1)
    } else {
        (buf, cursor)
    }
}

/// The text and cursor after the characters of `text` from `k` on were
/// pasted at the cursor, line breaks left out.
pub open spec fn pasted(buf: Seq<char>, cursor: int, text: Seq<char>, k: int) -> (Seq<char>, int)
    decreases text.len() - k,
{
    if k < 0 || k >= text.len() {
        (buf, cursor)
    } else if text[k] == '\n' || text[k] == '\r' {
        pasted(buf, cursor, text, k + 1)
    } else {
        pasted(typed(buf, cursor, text[k]).0, typed(buf, cursor, text[k]).1, text, k + 1)
    }
}

/// The text and cursor after a key of the rename input: the editing keys
/// change the text or move the cursor, cancelling empties the input, and
/// confirming leaves it as it is.
pub open spec fn edited(buf: Seq<char>, cursor: int, command: RenameCommand) -> (Seq<char>, int) {
    match command {
        RenameCommand::Cancel => (Seq::empty(), 0),
        RenameCommand::Backspace => if 0 < cursor <= buf.len() {
            (buf.remove(cursor - 1), cursor - 1)
        } else {
            (buf, cursor)
        },
        RenameCommand::Delete => if 0 <= cursor < buf.len() {
            (buf.remove(cursor), cursor)
        } else {
            (buf, cursor)
        },
        RenameCommand::Left => (
            buf,
            if cursor > 0 {
                cursor - 1
            } else {
                0
            },
        ),
        RenameCommand::Right => (
            buf,
            if cursor < buf.len() {
                cursor + 1
            } else {
                cursor
            },
        ),
        RenameCommand::Home => (buf, 0),
        RenameCommand::End => (buf, buf.len() as int),
        RenameCommand::Type(ch) => if ch == '/' || ch == '\\' {
            (buf, cursor)
        } else {
            typed(buf, cursor, ch)
        },
        RenameCommand::Confirm | RenameCommand::Nothing => (buf, cursor),
    }
}

/// What confirming a rename amounts to.
#[derive(Debug)]
pub enum RenameDecision {
    /// No name is left: the rename is cancelled.
    Empty,
    /// The name is the one that the file has.
    Unchanged,
    /// The file is to get the name.
    Rename(String),
}

/// A `RenameDecision` with its name as a sequence of characters.
pub enum RenameDecisionView {
    Empty,
    Unchanged,
    Rename(Seq<char>),
}

impl View for RenameDecision {
    type V = RenameDecisionView;

    open spec fn view(&self) -> RenameDecisionView {
        match self {
            RenameDecision::Empty => RenameDecisionView::Empty,
            RenameDecision::Unchanged => RenameDecisionView::Unchanged,
            RenameDecision::Rename(name) => RenameDecisionView::Rename(name@),
        }
    }
}

/// The decision for the text `buf` of the input and the name `current`
/// that the file has: the text counts without the whitespace around it.
pub open spec fn decision_of(buf: Seq<char>, current: Seq<char>) -> RenameDecisionView {
    if trimmed(buf).len() == 0 {
        RenameDecisionView::Empty
    } else if trimmed(buf) == current {
        RenameDecisionView::Unchanged
    } else {
        RenameDecisionView::Rename(trimmed(buf))
    }
}

impl RenameInput {
    /// The text and the cursor.
    pub open spec fn state(&self) -> (Seq<char>, int) {
        (self.buf@, self.cursor as int)
    }

    /// The input holding `name`, with the cursor at its end.
    pub fn start(name: &str) -> (r: RenameInput)
        ensures
            r.state() == (name@, name@.len() as int),
    {
        let buf = chars_of(name);
        let cursor = buf.len();
        RenameInput { buf, cursor }
    }

    fn put(&mut self, ch: char)
        ensures
            final(self).state() == typed(old(self).buf@, old(self).cursor as int, ch),
    {
        if self.buf.len() < usize::MAX {
            let at = if self.cursor < self.buf.len() {
                self.cursor
            } else {
                self.buf.len()
            };
            self.buf.insert(at, ch);
            self.cursor = at + 1;
            assert(self.buf@ =~= typed(old(self).buf@, old(self).cursor as int, ch).0);
        }
    }

    /// Types a character: path separators are refused, so that the name
    /// stays a bare file name.
    pub fn type_char(&mut self, ch: char)
        ensures
            final(self).state() == if ch == '/' || ch == '\\' {
                old(self).state()
            } else {
                typed(old(self).buf@, old(self).cursor as int, ch)
            },
    {
        if ch != '/' && ch != '\\' {
            self.put(ch);
        }
    }

    /// Pastes text at the cursor, without its line breaks.
    pub fn paste(&mut self, text: &str)
        ensures
            final(self).state() == pasted(old(self).buf@, old(self).cursor as int, text@, 0),
    {
        let t = chars_of(text);
        let mut k: usize = 0;
        while k < t.len()
            invariant
                k <= t.len(),
                pasted(self.buf@, self.cursor as int, t@, k as int) == pasted(
                    old(self).buf@,
                    old(self).cursor as int,
                    t@,
                    0,
                ),
            decreases t.len() - k,
        {
            let ch = t[k];
            if ch != '\n' && ch != '\r' {
                self.put(ch);
            }
            k += 1;
        }
    }

    /// Deletes the character before the cursor.
    pub fn backspace(&mut self)
        ensures
            final(self).state() == if 0 < old(self).cursor <= old(self).buf@.len() {
                (old(self).buf@.remove(old(self).cursor - 1), old(self).cursor - 1)
            } else {
                old(self).state()
            },
    {
        if self.cursor > 0 && self.cursor <= self.buf.len() {
            self.cursor -= 1;
            let _ = self.buf.remove(self.cursor);
        }
    }

    /// Deletes the character under the cursor.
    pub fn delete(&mut self)
        ensures
            final(self).state() == if old(self).cursor < old(self).buf@.len() {
                (old(self).buf@.remove(old(self).cursor as int), old(self).cursor as int)
            } else {
                old(self).state()
            },
    {
        if self.cursor < self.buf.len() {
            let _ = self.buf.remove(self.cursor);
        }
    }

    /// Moves the cursor one character to the left.
    pub fn left(&mut self)
        ensures
            final(self).state() == (
                old(self).buf@,
                if old(self).cursor > 0 {
                    old(self).cursor - 1
                } else {
                    0
                },
            ),
    {
        if self.cursor > 0 {
            self.cursor -= 1;
        }
    }

    /// Moves the cursor one character to the right.
    pub fn right(&mut self)
        ensures
            final(self).state() == (
                old(self).buf@,
                if old(self).cursor < old(self).buf@.len() {
                    old(self).cursor + 1
                } else {
                    old(self).cursor as int
                },
            ),
    {
        if self.cursor < self.buf.len() {
            self.cursor += 1;
        }
    }

    /// Moves the cursor to the start.
    pub fn home(&mut self)
        ensures
            final(self).state() == (old(self).buf@, 0int),
    {
        self.cursor = 0;
    }

    /// Moves the cursor to the end.
    pub fn end(&mut self)
        ensures
            final(self).state() == (old(self).buf@, old(self).buf@.len() as int),
    {
        self.cursor = self.buf.len();
    }

    /// Decides what confirming the rename does, given the name that the
    /// file has.
    pub fn decide(&self, current_name: &str) -> (r: RenameDecision)
        ensures
            r@ == decision_of(self.buf@, current_name@),
    {
        let t = trim(&self.buf);
        if t.len() == 0 {
            RenameDecision::Empty
        } else if same_text(&t, &chars_of(current_name)) {
            RenameDecision::Unchanged
        } else {
            RenameDecision::Rename(string_of(&t))
        }
    }

    /// Carries out what a key does to the input.
    pub fn apply(&mut self, command: RenameCommand)
        ensures
            final(self).state() == edited(old(self).buf@, old(self).cursor as int, command),
    {
        match command {
            RenameCommand::Cancel => {
                self.buf = Vec::new();
                self.cursor = 0;
            },
            RenameCommand::Backspace => self.backspace(),
            RenameCommand::Delete => self.delete(),
            RenameCommand::Left => self.left(),
            RenameCommand::Right => self.right(),
            RenameCommand::Home => self.home(),
            RenameCommand::End => self.end(),
            RenameCommand::Type(ch) => self.type_char(ch),
            RenameCommand::Confirm => {},
            RenameCommand::Nothing => {},
        }
    }

    /// The text of the input.
    pub fn text(&self) -> (r: String)
        ensures
            r@ == self.buf@,
    {
        string_of(&self.buf)
    }
}

} // verus!
