//! The application's modes and the decisions of its input handling: which
//! command a key or a mouse event stands for in which state.

use vstd::prelude::*;
use crate::autocomplete::closing_of;
use crate::buffer::{narrow, narrowed};
use crate::preview::Rect;

verus! {

/// `std::path::PathBuf`, carried through as an opaque value.
#[verifier::external_type_specification]
#[verifier::external_body]
pub struct ExPathBuf(std::path::PathBuf);

/// State for round-trip .docx editing.
#[derive(Debug)]
pub struct DocxState {
    /// Path to the original .docx file.
    pub docx_path: std::path::PathBuf,
    /// Used as the reference document when exporting back to .docx.
    pub reference_doc: std::path::PathBuf,
}

/// The two top-level view modes.
#[derive(Clone, Copy, Debug, PartialEq, Eq, Structural)]
pub enum Mode {
    Editor,
    Preview,
}

/// How long a status message stays, in milliseconds.
pub const STATUS_MILLIS: u64 = 3000;

/// Lines scrolled for each tick of the mouse wheel in preview mode.
pub const SCROLL_LINES: u16 = 3;

/// The longest time between two clicks of a multi-click, in milliseconds.
pub const MULTI_CLICK_MILLIS: u64 = 500;

/// The width of the editor tab in the header.
pub const TAB_EDITOR_W: u16 = 8;

/// The width of the preview tab in the header.
pub const TAB_PREVIEW_W: u16 = 9;

/// The widest that the interface is drawn.
pub const MAX_WIDTH: u16 = 120;

/// A key, apart from its modifiers.
#[derive(Clone, Copy, Debug, PartialEq, Eq, Structural)]
pub enum Key {
    Char(char),
    Enter,
    Esc,
    Tab,
    Backspace,
    Delete,
    Left,
    Right,
    Up,
    Down,
    Home,
    End,
    PageUp,
    PageDown,
    F(u8),
    Other,
}

/// The modifiers held with a key; `other` stands for any beyond the three.
#[derive(Clone, Copy, Debug, PartialEq, Eq, Structural)]
pub struct KeyMods {
    pub ctrl: bool,
    pub alt: bool,
    pub shift: bool,
    pub other: bool,
}

impl KeyMods {
    /// No modifier is held.
    pub open spec fn none(self) -> bool {
        !self.ctrl && !self.alt && !self.shift && !self.other
    }

    /// Control is held and nothing else.
    pub open spec fn only_ctrl(self) -> bool {
        self.ctrl && !self.alt && !self.shift && !self.other
    }
}

/// What a key does to the rename input.
#[derive(Clone, Copy, Debug, PartialEq, Eq, Structural)]
pub enum RenameCommand {
    Cancel,
    Confirm,
    Backspace,
    Delete,
    Left,
    Right,
    Home,
    End,
    Type(char),
    Nothing,
}

/// What a key does in the editor.
#[derive(Clone, Copy, Debug, PartialEq, Eq, Structural)]
pub enum EditorCommand {
    Undo,
    Redo,
    SelectAll,
    LineStart,
    Copy,
    Paste,
    DeleteWordBefore,
    DeleteWordAfter,
    /// Enter: continue a list or quote, else pass the key on.
    Enter,
    /// A character that opens a pair: close it, else pass the key on.
    AutoClose(char),
    /// The key goes to the text area as it is.
    PassThrough,
}

/// What a key does in the preview.
#[derive(Clone, Copy, Debug, PartialEq, Eq, Structural)]
pub enum PreviewCommand {
    ScrollUp,
    ScrollDown,
    PageUp,
    PageDown,
    Top,
    Bottom,
    Nothing,
}

/// What a key does.
#[derive(Clone, Copy, Debug, PartialEq, Eq, Structural)]
pub enum Command {
    DismissHelp,
    Rename(RenameCommand),
    /// Esc: back to the editor.
    Back,
    SaveAndQuit,
    Save,
    StartRename,
    ShowHelp,
    ToggleMode,
    Editor(EditorCommand),
    Preview(PreviewCommand),
}

/// What a key does to the rename input.
pub open spec fn rename_command_of(key: Key) -> RenameCommand {
    match key {
        Key::Esc => RenameCommand::Cancel,
        Key::Enter => RenameCommand::Confirm,
        Key::Backspace => RenameCommand::Backspace,
        Key::Delete => RenameCommand::Delete,
        Key::Left => RenameCommand::Left,
        Key::Right => RenameCommand::Right,
        Key::Home => RenameCommand::Home,
        Key::End => RenameCommand::End,
        Key::Char(c) => RenameCommand::Type(c),
        _ => RenameCommand::Nothing,
    }
}

/// What a key does in the editor.
pub open spec fn editor_command_of(key: Key, mods: KeyMods) -> EditorCommand {
    if mods.only_ctrl() && key == Key::Char('z') {
        EditorCommand::Undo
    } else if mods.only_ctrl() && key == Key::Char('y') {
        EditorCommand::Redo
    } else if mods.ctrl && mods.shift && key == Key::Char('Z') {
        EditorCommand::Redo
    } else if mods.only_ctrl() && key == Key::Char('a') {
        EditorCommand::SelectAll
    } else if mods.only_ctrl() && key == Key::Char('l') {
        EditorCommand::LineStart
    } else if mods.only_ctrl() && key == Key::Char('c') {
        EditorCommand::Copy
    } else if mods.only_ctrl() && key == Key::Char('v') {
        EditorCommand::Paste
    } else if mods.only_ctrl() && (key == Key::Backspace || key == Key::Char('h')) {
        EditorCommand::DeleteWordBefore
    } else if mods.only_ctrl() && (key == Key::Delete || key == Key::Char('d')) {
        EditorCommand::DeleteWordAfter
    } else if mods.none() && key == Key::Enter {
        EditorCommand::Enter
    } else if mods.none() && key is Char && closing_of(key->Char_0).is_some() {
        EditorCommand::AutoClose(key->Char_0)
    } else {
        EditorCommand::PassThrough
    }
}

/// What a key does in the preview.
pub open spec fn preview_command_of(key: Key) -> PreviewCommand {
    match key {
        Key::Up => PreviewCommand::ScrollUp,
        Key::Down => PreviewCommand::ScrollDown,
        Key::PageUp => PreviewCommand::PageUp,
        Key::PageDown => PreviewCommand::PageDown,
        Key::Home => PreviewCommand::Top,
        Key::End => PreviewCommand::Bottom,
        _ => PreviewCommand::Nothing,
    }
}

/// What a key does: any key dismisses the help; in rename mode every key
/// goes to the rename input; Esc alone leads back; then the keys that work
/// in every mode; then those of the mode.
pub open spec fn command_of(show_help: bool, renaming: bool, mode: Mode, key: Key, mods: KeyMods) -> Command {
    if show_help {
        Command::DismissHelp
    } else if renaming {
        Command::Rename(rename_command_of(key))
    } else if key == Key::Esc && mods.none() {
        Command::Back
    } else if mods.only_ctrl() && key == Key::Char('q') {
        Command::SaveAndQuit
    } else if mods.only_ctrl() && key == Key::Char('s') {
        Command::Save
    } else if mods.only_ctrl() && key == Key::Char('t') {
        Command::StartRename
    } else if key == Key::F(1) {
        Command::ShowHelp
    } else if key == Key::Tab {
        Command::ToggleMode
    } else if mode == Mode::Editor {
        Command::Editor(editor_command_of(key, mods))
    } else {
        Command::Preview(preview_command_of(key))
    }
}

fn rename_command(key: Key) -> (c: RenameCommand)
    ensures
        c == rename_command_of(key),
{
    match key {
        Key::Esc => RenameCommand::Cancel,
        Key::Enter => RenameCommand::Confirm,
        Key::Backspace => RenameCommand::Backspace,
        Key::Delete => RenameCommand::Delete,
        Key::Left => RenameCommand::Left,
        Key::Right => RenameCommand::Right,
        Key::Home => RenameCommand::Home,
        Key::End => RenameCommand::End,
        Key::Char(c) => RenameCommand::Type(c),
        _ => RenameCommand::Nothing,
    }
}

fn is_char(key: Key, c: char) -> (b: bool)
    ensures
        b == (key == Key::Char(c)),
{
    match key {
        Key::Char(k) => k == c,
        _ => false,
    }
}

fn editor_command(key: Key, mods: KeyMods) -> (c: EditorCommand)
    ensures
        c == editor_command_of(key, mods),
{
    let only_ctrl = mods.ctrl && !mods.alt && !mods.shift && !mods.other;
    let none = !mods.ctrl && !mods.alt && !mods.shift && !mods.other;
    if only_ctrl && is_char(key, 'z') {
        EditorCommand::Undo
    } else if only_ctrl && is_char(key, 'y') {
        EditorCommand::Redo
    } else if mods.ctrl && mods.shift && is_char(key, 'Z') {
        EditorCommand::Redo
    } else if only_ctrl && is_char(key, 'a') {
        EditorCommand::SelectAll
    } else if only_ctrl && is_char(key, 'l') {
        EditorCommand::LineStart
    } else if only_ctrl && is_char(key, 'c') {
        EditorCommand::Copy
    } else if only_ctrl && is_char(key, 'v') {
        EditorCommand::Paste
    } else if only_ctrl && (matches!(key, Key::Backspace) || is_char(key, 'h')) {
        EditorCommand::DeleteWordBefore
    } else if only_ctrl && (matches!(key, Key::Delete) || is_char(key, 'd')) {
        EditorCommand::DeleteWordAfter
    } else if none && matches!(key, Key::Enter) {
        EditorCommand::Enter
    } else {
        match key {
            Key::Char(ch) => if none && crate::autocomplete::auto_close_pair(ch).is_some() {
                EditorCommand::AutoClose(ch)
            } else {
                EditorCommand::PassThrough
            },
            _ => EditorCommand::PassThrough,
        }
    }
}

fn preview_command(key: Key) -> (c: PreviewCommand)
    ensures
        c == preview_command_of(key),
{
    match key {
        Key::Up => PreviewCommand::ScrollUp,
        Key::Down => PreviewCommand::ScrollDown,
        Key::PageUp => PreviewCommand::PageUp,
        Key::PageDown => PreviewCommand::PageDown,
        Key::Home => PreviewCommand::Top,
        Key::End => PreviewCommand::Bottom,
        _ => PreviewCommand::Nothing,
    }
}

/// Decides what a key does in the given state.
pub fn key_command(show_help: bool, renaming: bool, mode: Mode, key: Key, mods: KeyMods) -> (c: Command)
    ensures
        c == command_of(show_help, renaming, mode, key, mods),
{
    let only_ctrl = mods.ctrl && !mods.alt && !mods.shift && !mods.other;
    let none = !mods.ctrl && !mods.alt && !mods.shift && !mods.other;
    if show_help {
        Command::DismissHelp
    } else if renaming {
        Command::Rename(rename_command(key))
    } else if matches!(key, Key::Esc) && none {
        Command::Back
    } else if only_ctrl && is_char(key, 'q') {
        Command::SaveAndQuit
    } else if only_ctrl && is_char(key, 's') {
        Command::Save
    } else if only_ctrl && is_char(key, 't') {
        Command::StartRename
    } else if matches!(key, Key::F(1)) {
        Command::ShowHelp
    } else if matches!(key, Key::Tab) {
        Command::ToggleMode
    } else {
        match mode {
            Mode::Editor => Command::Editor(editor_command(key, mods)),
            Mode::Preview => Command::Preview(preview_command(key)),
        }
    }
}

/// The mode that Tab switches to.
pub fn toggled(mode: Mode) -> (m: Mode)
    ensures
        m == if mode == Mode::Editor {
            Mode::Preview
        } else {
            Mode::Editor
        },
{
    match mode {
        Mode::Editor => Mode::Preview,
        Mode::Preview => Mode::Editor,
    }
}

/// What a press of the left mouse button does.
#[derive(Clone, Copy, Debug, PartialEq, Eq, Structural)]
pub enum ClickCommand {
    /// Outside the interface: nothing.
    Nothing,
    /// On a mode tab of the header.
    SetMode(Mode),
    /// On the file name in the header.
    StartRename,
    /// In the preview: open the link under the pointer, if there is one.
    OpenLink,
    /// In the editor's text.
    Editor,
}

/// What a press of the left mouse button at `column`, `row` does, where
/// `area` is the content area and the header lies above it: the tabs take
/// the right end of the header, the file name the rest.
pub open spec fn click_of(mode: Mode, area: Rect, column: int, row: int) -> ClickCommand {
    let right = area.x + area.width;
    let tabs = if right > TAB_EDITOR_W + TAB_PREVIEW_W {
        right - (TAB_EDITOR_W + TAB_PREVIEW_W)
    } else {
        0
    };
    if column < area.x || column >= right {
        ClickCommand::Nothing
    } else if row < area.y {
        if column >= tabs {
            if column - tabs < TAB_EDITOR_W {
                ClickCommand::SetMode(Mode::Editor)
            } else {
                ClickCommand::SetMode(Mode::Preview)
            }
        } else {
            ClickCommand::StartRename
        }
    } else if mode == Mode::Preview {
        ClickCommand::OpenLink
    } else if row < area.y + area.height {
        ClickCommand::Editor
    } else {
        ClickCommand::Nothing
    }
}

/// Decides what a press of the left mouse button does.
pub fn click_command(mode: Mode, area: Rect, column: u16, row: u16) -> (c: ClickCommand)
    ensures
        c == click_of(mode, area, column as int, row as int),
{
    let right: u32 = area.x as u32 + area.width as u32;
    let tabs: u32 = if right > 17 {
        right - 17
    } else {
        0
    };
    if column < area.x || column as u32 >= right {
        ClickCommand::Nothing
    } else if row < area.y {
        if column as u32 >= tabs {
            if column as u32 - tabs < 8 {
                ClickCommand::SetMode(Mode::Editor)
            } else {
                ClickCommand::SetMode(Mode::Preview)
            }
        } else {
            ClickCommand::StartRename
        }
    } else {
        match mode {
            Mode::Preview => ClickCommand::OpenLink,
            Mode::Editor => if (row as u32) < area.y as u32 + area.height as u32 {
                ClickCommand::Editor
            } else {
                ClickCommand::Nothing
            },
        }
    }
}

/// Whether a position is inside the content area.
pub fn in_area(area: Rect, column: u16, row: u16) -> (b: bool)
    ensures
        b == (area.x <= column < area.x + area.width && area.y <= row < area.y + area.height),
{
    column >= area.x && (column as u32) < area.x as u32 + area.width as u32 && row >= area.y && (
    row as u32) < area.y as u32 + area.height as u32
}

/// The count of a click: a click at the place of the last one, within the
/// time of a multi-click, counts on from one to three and around; any other
/// click counts as the first.
pub fn click_count(previous: u8, elapsed_millis: Option<u128>, same_place: bool) -> (n: u8)
    ensures
        n == if elapsed_millis.is_some() && elapsed_millis.unwrap() < MULTI_CLICK_MILLIS
            && same_place {
            previous % 3 + 1
        } else {
            1
        },
{
    let repeat = match elapsed_millis {
        Some(ms) => ms < MULTI_CLICK_MILLIS as u128,
        None => false,
    } && same_place;
    if repeat {
        previous % 3 + 1
    } else {
        1
    }
}

/// Whether a status message has been up for its time.
pub fn status_expired(elapsed_millis: u128) -> (b: bool)
    ensures
        b == (elapsed_millis >= STATUS_MILLIS),
{
    elapsed_millis >= STATUS_MILLIS as u128
}

/// The first visible line of the editor after the wheel scrolled up.
pub fn wheel_up(scroll_top: u16) -> (r: u16)
    ensures
        r == if scroll_top > 0 {
            scroll_top - 1
        } else {
            0
        },
{
    if scroll_top > 0 {
        scroll_top - 1
    } else {
        0
    }
}

/// The first visible line of the editor after the wheel scrolled down: no
/// further than the last line.
pub fn wheel_down(scroll_top: u16, total_lines: usize) -> (r: u16)
    ensures
        r == ({
            let last = if total_lines > 0 {
                narrowed(total_lines as int) - 1
            } else {
                0
            };
            if scroll_top + 1 < last {
                scroll_top + 1
            } else {
                last
            }
        }),
{
    let total = narrow(total_lines);
    let last = if total > 0 {
        total - 1
    } else {
        0
    };
    if (scroll_top as u32) + 1 < last as u32 {
        scroll_top + 1
    } else {
        last
    }
}

/// The part of the terminal that the interface is drawn in: no wider than
/// the widest width, and centered.
pub fn usable_area(full: Rect) -> (r: Rect)
    ensures
        r.width == if full.width < MAX_WIDTH {
            full.width
        } else {
            MAX_WIDTH
        },
        r.x == (full.width - r.width) / 2,
        r.y == full.y,
        r.height == full.height,
{
    let capped = if full.width < MAX_WIDTH {
        full.width
    } else {
        MAX_WIDTH
    };
    Rect { x: (full.width - capped) / 2, y: full.y, width: capped, height: full.height }
}

/// The place of the help window: at most 45 by 23 cells, with a margin of
/// two columns and one row where the terminal is smaller, and centered.
pub fn help_area(full: Rect) -> (r: Rect)
    ensures
        r.width == if full.width >= 49 {
            45
        } else if full.width >= 4 {
            full.width - 4
        } else {
            0
        },
        r.height == if full.height >= 25 {
            23
        } else if full.height >= 2 {
            full.height - 2
        } else {
            0
        },
        r.x == (full.width - r.width) / 2,
        r.y == (full.height - r.height) / 2,
{
    let w = if full.width >= 4 {
        full.width - 4
    } else {
        0
    };
    let width = if w > 45 {
        45
    } else {
        w
    };
    let h = if full.height >= 2 {
        full.height - 2
    } else {
        0
    };
    let height = if h > 23 {
        23
    } else {
        h
    };
    Rect { x: (full.width - width) / 2, y: (full.height - height) / 2, width, height }
}

} // verus!
