use hayate_fileview::entry::SortColumn;
use hayate_fileview::keys::{file_list_command, jump_feed, FileListCommand, Key, KeyInput, Modifiers, ScrollKey};

fn press(key: Key, ctrl: bool, shift: bool, alt: bool, text: Option<&str>) -> KeyInput {
    KeyInput { key, mods: Modifiers { ctrl, shift, alt }, text: text.map(|t| t.to_string()) }
}

fn plain(key: Key) -> KeyInput {
    press(key, false, false, false, None)
}

#[test]
fn ctrl_q_quits_even_in_search() {
    let k = press(Key::Letter('q'), true, false, false, Some("q"));
    assert_eq!(file_list_command(&k, true, true, true), FileListCommand::Quit);
    assert_eq!(file_list_command(&k, false, false, false), FileListCommand::Quit);
}

#[test]
fn search_mode_keys() {
    assert_eq!(file_list_command(&plain(Key::Escape), true, true, true), FileListCommand::SearchCancel);
    assert_eq!(file_list_command(&plain(Key::Return), true, true, true), FileListCommand::SearchCommit);
    assert_eq!(file_list_command(&plain(Key::BackSpace), true, true, true), FileListCommand::SearchBackspace);
    assert_eq!(file_list_command(&press(Key::Letter('x'), false, false, false, Some("x")), true, true, true), FileListCommand::SearchType);
    assert_eq!(file_list_command(&plain(Key::Up), true, true, true), FileListCommand::SearchIdle);
}

#[test]
fn navigation_and_view_keys() {
    assert_eq!(file_list_command(&press(Key::Letter('f'), true, false, false, None), false, false, true), FileListCommand::StartSearch);
    assert_eq!(file_list_command(&plain(Key::Escape), false, true, true), FileListCommand::ClearSearch);
    assert_eq!(file_list_command(&plain(Key::Escape), false, false, true), FileListCommand::Ignore);
    assert_eq!(file_list_command(&press(Key::Letter('h'), true, false, false, None), false, false, true), FileListCommand::ToggleHidden);
    assert_eq!(file_list_command(&plain(Key::BackSpace), false, false, true), FileListCommand::GoParent);
    assert_eq!(file_list_command(&press(Key::Left, false, false, true, None), false, false, true), FileListCommand::GoBack);
    assert_eq!(file_list_command(&press(Key::Right, false, false, true, None), false, false, true), FileListCommand::GoForward);
    assert_eq!(file_list_command(&press(Key::Down, false, true, false, None), false, false, true), FileListCommand::MoveCursor { down: true, extend: true });
    assert_eq!(file_list_command(&plain(Key::Up), false, false, true), FileListCommand::MoveCursor { down: false, extend: false });
    assert_eq!(file_list_command(&press(Key::Letter('a'), true, false, false, None), false, false, true), FileListCommand::SelectAll);
    assert_eq!(file_list_command(&plain(Key::Tab), false, false, true), FileListCommand::CycleViewMode);
    assert_eq!(file_list_command(&plain(Key::Return), false, false, true), FileListCommand::Open);
    assert_eq!(file_list_command(&press(Key::Digit(2), true, false, false, None), false, false, true), FileListCommand::SortBy(SortColumn::Size));
    assert_eq!(file_list_command(&press(Key::Digit(4), true, false, false, None), false, false, true), FileListCommand::Ignore);
    assert_eq!(file_list_command(&plain(Key::PageDown), false, false, true), FileListCommand::Scroll(ScrollKey::PageDown));
}

#[test]
fn file_operations_wait_for_debounce() {
    let copy = press(Key::Letter('c'), true, false, false, None);
    assert_eq!(file_list_command(&copy, false, false, true), FileListCommand::Copy);
    assert_eq!(file_list_command(&copy, false, false, false), FileListCommand::Ignore);
    assert_eq!(file_list_command(&press(Key::Letter('v'), true, false, false, None), false, false, true), FileListCommand::Paste);
    assert_eq!(file_list_command(&plain(Key::Delete), false, false, true), FileListCommand::Delete);
    assert_eq!(file_list_command(&plain(Key::F2), false, false, true), FileListCommand::Rename);
    assert_eq!(file_list_command(&press(Key::Letter('N'), true, true, false, None), false, false, true), FileListCommand::NewFolder);
    assert_eq!(file_list_command(&plain(Key::F2), false, false, false), FileListCommand::Ignore);
}

#[test]
fn typing_jumps_by_first_jump_character() {
    assert_eq!(file_list_command(&press(Key::Other, false, false, false, Some("!x")), false, false, true), FileListCommand::Jump('x'));
    assert_eq!(file_list_command(&press(Key::Other, false, false, false, Some("_")), false, false, true), FileListCommand::Jump('_'));
    assert_eq!(file_list_command(&press(Key::Other, false, false, false, Some("é")), false, false, true), FileListCommand::Jump('é'));
    assert_eq!(file_list_command(&press(Key::Other, false, false, false, Some("!?")), false, false, true), FileListCommand::Ignore);
    assert_eq!(file_list_command(&press(Key::Letter('x'), false, false, true, Some("x")), false, false, true), FileListCommand::Ignore);
}

#[test]
fn jump_buffer_restarts_after_timeout() {
    let mut b = String::new();
    jump_feed(&mut b, 'a', None);
    jump_feed(&mut b, 'b', Some(100));
    assert_eq!(b, "ab");
    jump_feed(&mut b, 'c', Some(300));
    assert_eq!(b, "abc");
    jump_feed(&mut b, 'd', Some(301));
    assert_eq!(b, "d");
}
