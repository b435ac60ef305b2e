use hayate_fileview::entry::{DirEntry, SortColumn, SortOrder};
use hayate_fileview::state::{FileViewState, ViewMode, MAX_NAV_HISTORY};

fn file(name: &str, size: u64) -> DirEntry {
    DirEntry { name: name.to_string(), is_dir: false, is_symlink: false, size, modified: None }
}

fn dir(name: &str) -> DirEntry {
    DirEntry { name: name.to_string(), is_dir: true, is_symlink: false, size: 4096, modified: None }
}

fn names(s: &FileViewState) -> Vec<String> {
    s.entries.iter().map(|e| e.name.clone()).collect()
}

fn make_state(path: &str, raw: Vec<DirEntry>) -> FileViewState {
    FileViewState::new_with_config(path.to_string(), SortColumn::Name, SortOrder::Asc, false, ViewMode::Detail, Ok(raw))
}

#[test]
fn listing_sorts_dirs_first_and_hides_dot_files() {
    let s = make_state("/d", vec![file("b.txt", 1), dir("zdir"), file(".hidden", 1), file("A.txt", 2), dir("adir")]);
    assert_eq!(names(&s), vec!["adir", "zdir", "A.txt", "b.txt"]);
    assert!(s.last_error.is_none());
}

#[test]
fn read_error_is_kept() {
    let s = FileViewState::new_with_config("/nope".to_string(), SortColumn::Name, SortOrder::Asc, false, ViewMode::Detail, Err("denied".to_string()));
    assert!(s.entries.is_empty());
    assert_eq!(s.last_error.as_deref(), Some("denied"));
}

#[test]
fn navigate_to_valid_dir() {
    let mut s = make_state("/d", vec![dir("sub")]);
    assert!(s.navigate("/d/sub".to_string(), true));
    s.refresh(Ok(vec![file("a.txt", 0)]));
    assert_eq!(s.current_path, "/d/sub");
    assert!(s.entries.iter().any(|e| e.name == "a.txt"));
    assert!(s.last_error.is_none());
    assert_eq!(s.title(), "Hayate — /d/sub");
}

#[test]
fn navigate_to_nonexistent_sets_error() {
    let mut s = make_state("/d", vec![]);
    assert!(!s.navigate("/d/no_such_dir".to_string(), false));
    assert_eq!(s.last_error.as_deref(), Some("Cannot open: /d/no_such_dir"));
    assert_eq!(s.current_path, "/d");
    assert!(!s.can_go_back());
}

#[test]
fn go_back_and_forward() {
    let mut s = make_state("/d", vec![dir("child")]);
    let original = s.current_path.clone();
    s.navigate("/d/child".to_string(), true);
    assert_eq!(s.current_path, "/d/child");

    assert!(s.go_back());
    assert_eq!(s.current_path, original);
    assert!(s.can_go_forward());

    assert!(s.go_forward());
    assert_eq!(s.current_path, "/d/child");
    assert!(!s.can_go_forward());
    assert!(!make_state("/x", vec![]).go_back());
}

#[test]
fn history_keeps_at_most_fifty() {
    let mut s = make_state("/0", vec![]);
    for i in 1..=60 {
        s.navigate(format!("/{i}"), true);
    }
    let mut backs = 0;
    while s.go_back() {
        backs += 1;
    }
    assert_eq!(backs, MAX_NAV_HISTORY);
    assert_eq!(s.current_path, "/10");
    // Going back then navigating drops the forward stack.
    s.navigate("/x".to_string(), true);
    assert!(!s.can_go_forward());
}

#[test]
fn go_parent_moves_up() {
    let mut s = make_state("/a/b", vec![]);
    assert_eq!(s.parent_path().as_deref(), Some("/a"));
    assert!(s.go_parent(true));
    assert_eq!(s.current_path, "/a");
    let mut root = make_state("/", vec![]);
    assert_eq!(root.parent_path(), None);
    assert!(!root.go_parent(true));
}

#[test]
fn refresh_picks_up_new_file() {
    let mut s = make_state("/d", vec![]);
    let before = s.entries.len();
    s.select_single(0);
    s.set_search(Some("x".to_string()));
    s.refresh(Ok(vec![file("new_file.txt", 5)]));
    assert!(s.entries.len() > before);
    assert!(s.entries.iter().any(|e| e.name == "new_file.txt"));
    assert!(s.selected_indices().is_empty());
    assert_eq!(s.cursor, None);
    assert_eq!(s.search_query, None);
    assert_eq!(s.filtered_indices, None);
}

#[test]
fn select_single_and_toggle() {
    let mut s = make_state("/d", vec![file("a", 0), file("b", 0)]);
    s.select_single(0);
    assert!(s.is_selected(0));
    assert!(!s.is_selected(1));
    assert_eq!(s.cursor, Some(0));

    s.toggle_select(1);
    assert!(s.is_selected(1));
    s.toggle_select(1);
    assert!(!s.is_selected(1));
}

#[test]
fn select_range() {
    let mut s = make_state("/d", vec![file("a", 0), file("b", 0), file("c", 0), file("d", 0)]);
    s.select_range(1, 3);
    assert!(!s.is_selected(0));
    assert!(s.is_selected(1));
    assert!(s.is_selected(2));
    assert!(s.is_selected(3));
    s.select_range(3, 2);
    assert_eq!(s.selected_indices(), vec![2, 3]);
    assert_eq!(s.cursor, Some(2));
}

#[test]
fn set_sort_toggles_order() {
    let mut s = make_state("/d", vec![file("zzz", 0), file("aaa", 0)]);
    // Initial: Name Asc. Same column → toggle to Desc.
    s.set_sort(SortColumn::Name);
    s.refresh(Ok(vec![file("zzz", 0), file("aaa", 0)]));
    assert_eq!(s.sort_order, SortOrder::Desc);
    let first_desc = s.entries[0].name.clone();

    s.set_sort(SortColumn::Name);
    s.refresh(Ok(vec![file("zzz", 0), file("aaa", 0)]));
    assert_eq!(s.sort_order, SortOrder::Asc);
    let first_asc = s.entries[0].name.clone();
    assert_ne!(first_desc, first_asc);

    s.set_sort(SortColumn::Size);
    assert_eq!((s.sort_column, s.sort_order), (SortColumn::Size, SortOrder::Asc));
}

#[test]
fn select_all_and_indices() {
    let mut s = make_state("/d", vec![file("x", 0), file("y", 0)]);
    s.select_all();
    assert_eq!(s.selected_indices().len(), s.entries.len());
    assert_eq!(s.cursor, Some(0));
    let mut empty = make_state("/e", vec![]);
    empty.select_all();
    assert_eq!(empty.cursor, None);
}

#[test]
fn search_filters_case_insensitively() {
    let mut s = make_state("/d", vec![file("Report.TXT", 0), file("notes.md", 0), file("report-old.txt", 0)]);
    assert_eq!(names(&s), vec!["notes.md", "report-old.txt", "Report.TXT"]);
    s.set_search(Some("REPORT".to_string()));
    assert_eq!(s.filtered_indices, Some(vec![1, 2]));
    // An empty query clears the filter, and so does leaving the search.
    s.set_search(Some(String::new()));
    assert_eq!(s.filtered_indices, None);
    s.set_search(Some("notes".to_string()));
    assert_eq!(s.filtered_indices, Some(vec![0]));
    s.set_search(None);
    assert_eq!(s.filtered_indices, None);
    assert_eq!(s.search_query, None);
}

#[test]
fn search_typing_and_backspace() {
    let mut s = make_state("/d", vec![file("alpha", 0), file("beta", 0)]);
    s.set_search(Some(String::new()));
    s.search_type("b\u{7}e");
    assert_eq!(s.search_query.as_deref(), Some("be"));
    assert_eq!(s.filtered_indices, Some(vec![1]));
    assert_eq!(s.cursor, Some(1));
    s.search_backspace();
    s.search_backspace();
    assert_eq!(s.search_query.as_deref(), Some(""));
    assert_eq!(s.filtered_indices, None);
    s.search_backspace();
    assert_eq!(s.search_query.as_deref(), Some(""));
}

#[test]
fn cursor_moves_and_extends() {
    let mut s = make_state("/d", vec![file("a", 0), file("b", 0), file("c", 0)]);
    s.move_cursor(true, false);
    assert_eq!(s.cursor, Some(0));
    s.move_cursor(true, true);
    s.move_cursor(true, true);
    s.move_cursor(true, true);
    assert_eq!(s.cursor, Some(2));
    assert_eq!(s.selected_indices(), vec![0, 1, 2]);
    s.move_cursor(false, false);
    assert_eq!(s.selected_indices(), vec![1]);
    let mut t = make_state("/d", vec![file("a", 0), file("b", 0)]);
    t.move_cursor(false, false);
    assert_eq!(t.cursor, Some(1));
}

#[test]
fn jump_goes_round_from_the_cursor() {
    let mut s = make_state("/d", vec![file("apple", 0), file("Banana", 0), file("avocado", 0)]);
    assert_eq!(names(&s), vec!["apple", "avocado", "Banana"]);
    assert_eq!(s.jump_target("A"), Some(0));
    s.select_single(0);
    assert_eq!(s.jump_target("a"), Some(1));
    s.select_single(1);
    assert_eq!(s.jump_target("a"), Some(0));
    assert_eq!(s.jump_target("b"), Some(2));
    assert_eq!(s.jump_target("z"), None);
    assert_eq!(s.jump_target(""), None);
}

#[test]
fn view_mode_cycles() {
    let mut s = make_state("/d", vec![]);
    s.cycle_view_mode();
    assert_eq!(s.view_mode, ViewMode::List);
    s.cycle_view_mode();
    assert_eq!(s.view_mode, ViewMode::Compact);
    s.cycle_view_mode();
    assert_eq!(s.view_mode, ViewMode::Detail);
    s.toggle_hidden();
    assert!(s.show_hidden);
}

#[test]
fn targets_and_selected_paths() {
    let mut s = make_state("/d", vec![dir("sub"), file("a.txt", 3)]);
    assert_eq!(s.cursor_target(), None);
    s.select_single(1);
    assert_eq!(s.cursor_target(), Some(("/d/a.txt".to_string(), false)));
    assert_eq!(s.entry_target(0), Some(("/d/sub".to_string(), true)));
    assert_eq!(s.entry_target(5), None);
    s.select_all();
    s.toggle_select(7);
    assert_eq!(s.selected_paths(), vec!["/d/sub".to_string(), "/d/a.txt".to_string()]);
}
