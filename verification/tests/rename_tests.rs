use hayate_fileview::entry::{DirEntry, SortColumn, SortOrder};
use hayate_fileview::file_ops::{
    already_exists_message, copied_message, parse_uri_list, pasted_message, percent_decode,
    trashed_message,
};
use hayate_fileview::keys::{FileListCommand, Key};
use hayate_fileview::rename::{menu_command, menu_items, rename_event, select_for_menu, start_rename, RenameEvent};
use hayate_fileview::state::{FileViewState, ViewMode};

fn file(name: &str) -> DirEntry {
    DirEntry { name: name.to_string(), is_dir: false, is_symlink: false, size: 1, modified: None }
}

fn make_state() -> FileViewState {
    FileViewState::new_with_config(
        "/home/u".to_string(),
        SortColumn::Name,
        SortOrder::Asc,
        false,
        ViewMode::Detail,
        Ok(vec![file("a.txt"), file("b.txt"), file("c.txt")]),
    )
}

#[test]
fn start_rename_joins_the_current_directory() {
    let s = make_state();
    let r = start_rename(&s, 1, "b.txt");
    assert_eq!(r.target_path, "/home/u/b.txt");
    assert_eq!(r.entry_idx, 1);
}

#[test]
fn rename_event_escape_enter_and_typing() {
    assert!(matches!(rename_event(Some(Key::Escape), true, "x"), RenameEvent::Cancel));
    assert!(matches!(rename_event(Some(Key::Escape), false, "x"), RenameEvent::Cancel));
    match rename_event(Some(Key::Return), true, "new.txt") {
        RenameEvent::Submit(t) => assert_eq!(t, "new.txt"),
        _ => panic!("Enter submits"),
    }
    match rename_event(Some(Key::KpEnter), true, "k.txt") {
        RenameEvent::Submit(t) => assert_eq!(t, "k.txt"),
        _ => panic!("keypad Enter submits"),
    }
    assert!(matches!(rename_event(Some(Key::Return), false, "x"), RenameEvent::Editing));
    assert!(matches!(rename_event(Some(Key::Letter('a')), true, "xa"), RenameEvent::Editing));
    assert!(matches!(rename_event(None, true, "x"), RenameEvent::Editing));
}

#[test]
fn menu_items_and_commands() {
    let items = menu_items();
    let ids: Vec<&str> = items.iter().map(|(id, _)| *id).collect();
    assert_eq!(ids, vec!["open", "copy", "paste", "delete", "rename", "new_folder"]);
    assert_eq!(items[5].1, "New Folder");
    assert_eq!(menu_command("open"), Some(FileListCommand::Open));
    assert_eq!(menu_command("copy"), Some(FileListCommand::Copy));
    assert_eq!(menu_command("paste"), Some(FileListCommand::Paste));
    assert_eq!(menu_command("delete"), Some(FileListCommand::Delete));
    assert_eq!(menu_command("rename"), Some(FileListCommand::Rename));
    assert_eq!(menu_command("new_folder"), Some(FileListCommand::NewFolder));
    assert_eq!(menu_command("Open"), None);
    assert_eq!(menu_command(""), None);
}

#[test]
fn select_for_menu_keeps_an_existing_selection() {
    let mut s = make_state();
    s.select_single(0);
    s.toggle_select(2);
    select_for_menu(&mut s, 2);
    assert_eq!(s.selected_indices(), vec![0, 2]);
    select_for_menu(&mut s, 1);
    assert_eq!(s.selected_indices(), vec![1]);
    assert_eq!(s.cursor, Some(1));
    select_for_menu(&mut s, 7);
    assert_eq!(s.selected_indices(), vec![1]);
}

#[test]
fn status_messages() {
    assert_eq!(copied_message(3), "Copied 3 file(s)");
    assert_eq!(pasted_message(2, 5), "Pasted 2/5 file(s)");
    assert_eq!(trashed_message(0), "Moved 0 file(s) to trash");
    assert_eq!(already_exists_message("a.txt"), "'a.txt' already exists");
}

#[test]
fn percent_text_that_is_no_escape_is_kept() {
    assert_eq!(percent_decode("%a\u{e9}"), "%a\u{e9}");
    assert_eq!(percent_decode("%4\u{e9}x"), "%4\u{e9}x");
    assert_eq!(percent_decode("%z\u{e9}"), "%z\u{e9}");
    let paths = parse_uri_list("file:///a%4\u{e9}\n# c\u{e9}\nfile:///b%20c\n");
    assert_eq!(paths, vec!["/a%4\u{e9}".to_string(), "/b c".to_string()]);
}
