use marko::app_state::{
    click_command, click_count, help_area, in_area, key_command, status_expired, toggled,
    usable_area, wheel_down, wheel_up, ClickCommand, Command, EditorCommand, Key, KeyMods, Mode,
    PreviewCommand, RenameCommand,
};
use marko::preview::Rect;

const NONE: KeyMods = KeyMods { ctrl: false, alt: false, shift: false, other: false };
const CTRL: KeyMods = KeyMods { ctrl: true, alt: false, shift: false, other: false };
const SHIFT: KeyMods = KeyMods { ctrl: false, alt: false, shift: true, other: false };
const CTRL_SHIFT: KeyMods = KeyMods { ctrl: true, alt: false, shift: true, other: false };

fn editor(key: Key, mods: KeyMods) -> Command {
    key_command(false, false, Mode::Editor, key, mods)
}

fn preview(key: Key, mods: KeyMods) -> Command {
    key_command(false, false, Mode::Preview, key, mods)
}

#[test]
fn any_key_dismisses_the_help() {
    assert_eq!(key_command(true, true, Mode::Editor, Key::Char('q'), CTRL), Command::DismissHelp);
    assert_eq!(key_command(true, false, Mode::Preview, Key::Esc, NONE), Command::DismissHelp);
}

#[test]
fn rename_mode_takes_every_key() {
    let rename = |key| key_command(false, true, Mode::Editor, key, NONE);
    assert_eq!(rename(Key::Esc), Command::Rename(RenameCommand::Cancel));
    assert_eq!(rename(Key::Enter), Command::Rename(RenameCommand::Confirm));
    assert_eq!(rename(Key::Backspace), Command::Rename(RenameCommand::Backspace));
    assert_eq!(rename(Key::Delete), Command::Rename(RenameCommand::Delete));
    assert_eq!(rename(Key::Left), Command::Rename(RenameCommand::Left));
    assert_eq!(rename(Key::Right), Command::Rename(RenameCommand::Right));
    assert_eq!(rename(Key::Home), Command::Rename(RenameCommand::Home));
    assert_eq!(rename(Key::End), Command::Rename(RenameCommand::End));
    assert_eq!(rename(Key::Char('x')), Command::Rename(RenameCommand::Type('x')));
    assert_eq!(rename(Key::Tab), Command::Rename(RenameCommand::Nothing));
    assert_eq!(
        key_command(false, true, Mode::Editor, Key::Char('q'), CTRL),
        Command::Rename(RenameCommand::Type('q'))
    );
}

#[test]
fn global_keys_work_in_both_modes() {
    for command in [editor as fn(Key, KeyMods) -> Command, preview] {
        assert_eq!(command(Key::Esc, NONE), Command::Back);
        assert_eq!(command(Key::Char('q'), CTRL), Command::SaveAndQuit);
        assert_eq!(command(Key::Char('s'), CTRL), Command::Save);
        assert_eq!(command(Key::Char('t'), CTRL), Command::StartRename);
        assert_eq!(command(Key::F(1), NONE), Command::ShowHelp);
        assert_eq!(command(Key::F(1), CTRL), Command::ShowHelp);
        assert_eq!(command(Key::Tab, NONE), Command::ToggleMode);
        assert_eq!(command(Key::Tab, SHIFT), Command::ToggleMode);
    }
    assert_eq!(toggled(Mode::Editor), Mode::Preview);
    assert_eq!(toggled(Mode::Preview), Mode::Editor);
}

#[test]
fn editor_keys() {
    let e = |key, mods| match editor(key, mods) {
        Command::Editor(c) => c,
        other => panic!("not an editor command: {:?}", other),
    };
    assert_eq!(e(Key::Char('z'), CTRL), EditorCommand::Undo);
    assert_eq!(e(Key::Char('y'), CTRL), EditorCommand::Redo);
    assert_eq!(e(Key::Char('Z'), CTRL_SHIFT), EditorCommand::Redo);
    assert_eq!(e(Key::Char('a'), CTRL), EditorCommand::SelectAll);
    assert_eq!(e(Key::Char('l'), CTRL), EditorCommand::LineStart);
    assert_eq!(e(Key::Char('c'), CTRL), EditorCommand::Copy);
    assert_eq!(e(Key::Char('v'), CTRL), EditorCommand::Paste);
    assert_eq!(e(Key::Backspace, CTRL), EditorCommand::DeleteWordBefore);
    assert_eq!(e(Key::Char('h'), CTRL), EditorCommand::DeleteWordBefore);
    assert_eq!(e(Key::Delete, CTRL), EditorCommand::DeleteWordAfter);
    assert_eq!(e(Key::Char('d'), CTRL), EditorCommand::DeleteWordAfter);
    assert_eq!(e(Key::Enter, NONE), EditorCommand::Enter);
    assert_eq!(e(Key::Enter, SHIFT), EditorCommand::PassThrough);
    assert_eq!(e(Key::Char('('), NONE), EditorCommand::AutoClose('('));
    assert_eq!(e(Key::Char('"'), NONE), EditorCommand::AutoClose('"'));
    assert_eq!(e(Key::Char('('), SHIFT), EditorCommand::PassThrough);
    assert_eq!(e(Key::Char('a'), NONE), EditorCommand::PassThrough);
    assert_eq!(e(Key::Char('z'), CTRL_SHIFT), EditorCommand::PassThrough);
    assert_eq!(e(Key::Esc, SHIFT), EditorCommand::PassThrough);
    assert_eq!(e(Key::Left, NONE), EditorCommand::PassThrough);
    assert_eq!(e(Key::Other, NONE), EditorCommand::PassThrough);
}

#[test]
fn preview_keys() {
    let p = |key| match preview(key, NONE) {
        Command::Preview(c) => c,
        other => panic!("not a preview command: {:?}", other),
    };
    assert_eq!(p(Key::Up), PreviewCommand::ScrollUp);
    assert_eq!(p(Key::Down), PreviewCommand::ScrollDown);
    assert_eq!(p(Key::PageUp), PreviewCommand::PageUp);
    assert_eq!(p(Key::PageDown), PreviewCommand::PageDown);
    assert_eq!(p(Key::Home), PreviewCommand::Top);
    assert_eq!(p(Key::End), PreviewCommand::Bottom);
    assert_eq!(p(Key::Char('x')), PreviewCommand::Nothing);
    assert_eq!(p(Key::Enter), PreviewCommand::Nothing);
}

#[test]
fn clicks_on_the_header_and_the_content() {
    let area = Rect::new(0, 2, 80, 20);
    // tabs take the last 17 columns of the header: 8 for the editor tab
    assert_eq!(click_command(Mode::Preview, area, 63, 0), ClickCommand::SetMode(Mode::Editor));
    assert_eq!(click_command(Mode::Preview, area, 70, 0), ClickCommand::SetMode(Mode::Editor));
    assert_eq!(click_command(Mode::Editor, area, 71, 0), ClickCommand::SetMode(Mode::Preview));
    assert_eq!(click_command(Mode::Editor, area, 79, 1), ClickCommand::SetMode(Mode::Preview));
    assert_eq!(click_command(Mode::Editor, area, 62, 0), ClickCommand::StartRename);
    assert_eq!(click_command(Mode::Editor, area, 5, 0), ClickCommand::StartRename);
    assert_eq!(click_command(Mode::Editor, area, 80, 0), ClickCommand::Nothing);
    assert_eq!(click_command(Mode::Editor, area, 10, 5), ClickCommand::Editor);
    assert_eq!(click_command(Mode::Editor, area, 10, 21), ClickCommand::Editor);
    assert_eq!(click_command(Mode::Editor, area, 10, 22), ClickCommand::Nothing);
    assert_eq!(click_command(Mode::Preview, area, 10, 5), ClickCommand::OpenLink);
    let centered = Rect::new(20, 2, 120, 20);
    assert_eq!(click_command(Mode::Editor, centered, 19, 5), ClickCommand::Nothing);
    assert_eq!(click_command(Mode::Editor, centered, 140, 5), ClickCommand::Nothing);
    assert_eq!(click_command(Mode::Editor, centered, 123, 0), ClickCommand::SetMode(Mode::Editor));
}

#[test]
fn narrow_header_is_all_tabs() {
    let area = Rect::new(0, 2, 10, 20);
    assert_eq!(click_command(Mode::Editor, area, 0, 0), ClickCommand::SetMode(Mode::Editor));
    assert_eq!(click_command(Mode::Editor, area, 8, 0), ClickCommand::SetMode(Mode::Preview));
}

#[test]
fn area_membership() {
    let area = Rect::new(5, 2, 10, 3);
    assert!(in_area(area, 5, 2));
    assert!(in_area(area, 14, 4));
    assert!(!in_area(area, 15, 4));
    assert!(!in_area(area, 14, 5));
    assert!(!in_area(area, 4, 2));
    assert!(!in_area(area, 5, 1));
}

#[test]
fn clicks_count_up_to_three_and_around() {
    assert_eq!(click_count(0, None, true), 1);
    assert_eq!(click_count(1, Some(100), true), 2);
    assert_eq!(click_count(2, Some(499), true), 3);
    assert_eq!(click_count(3, Some(0), true), 1);
    assert_eq!(click_count(1, Some(500), true), 1);
    assert_eq!(click_count(1, Some(100), false), 1);
}

#[test]
fn status_messages_last_three_seconds() {
    assert!(!status_expired(0));
    assert!(!status_expired(2999));
    assert!(status_expired(3000));
    assert!(status_expired(10_000));
}

#[test]
fn wheel_scrolls_the_editor_within_the_lines() {
    assert_eq!(wheel_up(0), 0);
    assert_eq!(wheel_up(5), 4);
    assert_eq!(wheel_down(0, 10), 1);
    assert_eq!(wheel_down(8, 10), 9);
    assert_eq!(wheel_down(9, 10), 9);
    assert_eq!(wheel_down(20, 10), 9);
    assert_eq!(wheel_down(0, 0), 0);
    assert_eq!(wheel_down(0, 1), 0);
    // a buffer of more lines than a screen coordinate can name
    assert_eq!(wheel_down(5, 65536), 6);
    assert_eq!(wheel_down(65534, 70000), 65534);
}

#[test]
fn interface_is_capped_and_centered() {
    assert_eq!(usable_area(Rect::new(0, 0, 80, 24)), Rect { x: 0, y: 0, width: 80, height: 24 });
    assert_eq!(usable_area(Rect::new(0, 0, 200, 50)), Rect { x: 40, y: 0, width: 120, height: 50 });
    assert_eq!(usable_area(Rect::new(0, 0, 121, 50)), Rect { x: 0, y: 0, width: 120, height: 50 });
}

#[test]
fn help_window_is_centered_and_fits() {
    assert_eq!(help_area(Rect::new(0, 0, 100, 40)), Rect { x: 27, y: 8, width: 45, height: 23 });
    assert_eq!(help_area(Rect::new(0, 0, 40, 10)), Rect { x: 2, y: 1, width: 36, height: 8 });
    assert_eq!(help_area(Rect::new(0, 0, 3, 1)), Rect { x: 1, y: 0, width: 0, height: 0 });
}
