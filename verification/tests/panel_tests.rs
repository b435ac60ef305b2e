use hayate_fileview::breadcrumb::{breadcrumbs, crumb_at};
use hayate_fileview::entry::{DirEntry, SortColumn, SortOrder};
use hayate_fileview::file_list::{
    click_select, column_header_text, compact_row, detail_row, entry_rgb, entry_rows, header_text, list_row,
    resolve_vis_idx, row_hit, sort_column_at, visible_count, YHit,
};
use hayate_fileview::keys::{Key, Modifiers};
use hayate_fileview::preview::{decode_image, dimensions_text, preview_kind, text_preview, too_large_text, PreviewKind};
use hayate_fileview::sidebar::{default_bookmarks, parse_mounts, SidebarModel};
use hayate_fileview::state::{FileViewState, ViewMode};
use hayate_fileview::status::{selected_total, status_info, StatusInfo};
use hayate_fileview::tabs::{dir_label, restore_needs_read, restore_snapshot, save_snapshot, TabAction, TabBar};

fn file(name: &str, size: u64) -> DirEntry {
    DirEntry { name: name.to_string(), is_dir: false, is_symlink: false, size, modified: None }
}

fn dir(name: &str) -> DirEntry {
    DirEntry { name: name.to_string(), is_dir: true, is_symlink: false, size: 0, modified: None }
}

fn state(path: &str, raw: Vec<DirEntry>) -> FileViewState {
    FileViewState::new_with_config(path.to_string(), SortColumn::Name, SortOrder::Asc, false, ViewMode::Detail, Ok(raw))
}

#[test]
fn tabs_open_close_and_switch() {
    let mut bar = TabBar::new("/home/u".to_string());
    assert_eq!(bar.tab_count(), 1);
    assert_eq!(bar.tabs[0].label, "u");
    bar.add_tab("/".to_string());
    assert_eq!(bar.tabs[1].label, "/");
    assert_eq!(bar.active, 1);
    let ctrl = Modifiers { ctrl: true, shift: false, alt: false };
    let ctrl_shift = Modifiers { ctrl: true, shift: true, alt: false };
    assert_eq!(bar.key_action(Key::Tab, ctrl, true), TabAction::Switch(0));
    assert_eq!(bar.key_action(Key::Tab, ctrl_shift, true), TabAction::Switch(0));
    assert_eq!(bar.key_action(Key::Digit(1), ctrl, true), TabAction::Switch(0));
    assert_eq!(bar.key_action(Key::Digit(3), ctrl, true), TabAction::NoAction);
    assert_eq!(bar.key_action(Key::Letter('t'), ctrl, true), TabAction::NewTab);
    assert_eq!(bar.key_action(Key::Letter('w'), ctrl, true), TabAction::Close(1));
    assert_eq!(bar.key_action(Key::Letter('w'), ctrl, false), TabAction::NoAction);
    assert_eq!(bar.click_action(0, false), TabAction::Switch(0));
    assert_eq!(bar.click_action(1, false), TabAction::NoAction);
    assert_eq!(bar.click_action(0, true), TabAction::Close(0));
    assert_eq!(bar.click_action(5, false), TabAction::NoAction);
    assert!(bar.close_tab(0));
    assert_eq!(bar.active, 0);
    assert_eq!(bar.tabs[0].label, "/");
    assert!(!bar.close_tab(0));
    assert!(!bar.close_tab(7));
    assert_eq!(bar.tabs.len(), 1);
    bar.update_active_label("/srv/data");
    assert_eq!(bar.tabs[0].label, "data");
    assert_eq!(bar.tabs[0].snapshot.path, "/srv/data");
    assert_eq!(dir_label("/"), "/");
}

#[test]
fn snapshots_restore_cursor_selection_and_location() {
    let mut s = state("/a", vec![file("x", 1), file("y", 2)]);
    s.select_range(0, 1);
    let snap = save_snapshot(&s, 0x4120_0000);
    assert_eq!(snap.scroll_offset_bits, 0x4120_0000);
    let mut other = state("/b", vec![file("z", 1)]);
    assert!(restore_needs_read(&snap, &other));
    restore_snapshot(&snap, &mut other, Some(Ok(vec![file("x", 1), file("y", 2)])));
    assert_eq!(other.current_path, "/a");
    assert_eq!(other.selected_indices(), vec![0, 1]);
    assert_eq!(other.cursor, Some(1));
    assert!(!restore_needs_read(&snap, &other));
}

#[test]
fn sidebar_rows_and_targets() {
    let mounts = "/dev/sda1 / ext4 rw 0 0\n/dev/sdb1 /media/usb\\040stick vfat rw 0 0\r\n/dev/sdc1   /mnt/backup ext4 rw 0 0\nbroken\n";
    let model = SidebarModel::new("/home/u", mounts);
    assert_eq!(model.bookmarks.len(), 5);
    assert_eq!(model.bookmarks[1].path, "/home/u/Documents");
    assert_eq!(model.mounts.len(), 2);
    assert_eq!(model.mounts[0].label, "usb\\040stick");
    assert_eq!(model.mounts[1].path, "/mnt/backup");
    let rows = model.rows();
    assert_eq!(rows[0], "Bookmarks");
    assert_eq!(rows[1], "🏠 Home");
    assert_eq!(rows[6], "Devices");
    assert_eq!(rows[8], "💾 backup");
    assert_eq!(model.row_target(0), None);
    assert_eq!(model.row_target(1).as_deref(), Some("/home/u"));
    assert_eq!(model.row_target(5).as_deref(), Some("/"));
    assert_eq!(model.row_target(6), None);
    assert_eq!(model.row_target(8).as_deref(), Some("/mnt/backup"));
    assert_eq!(model.row_target(9), None);
    let empty = SidebarModel::new("/", "");
    assert_eq!(empty.rows().last().map(|s| s.as_str()), Some("  (none)"));
    assert_eq!(default_bookmarks("/r")[3].path, "/r/Desktop");
    assert!(parse_mounts("").is_empty());
}

#[test]
fn list_rows_hits_and_clicks() {
    let mut s = state("/d", vec![file("a", 10), file("b", 20), file("c", 30), file("d", 40)]);
    assert_eq!(visible_count(&s), 4);
    assert_eq!(entry_rows(4, ViewMode::Compact), 2);
    assert_eq!(entry_rows(4, ViewMode::List), 4);
    assert_eq!(row_hit(&s, 2, 0), Some(YHit::ColumnHeader));
    assert_eq!(row_hit(&s, 4, 0), Some(YHit::Parent));
    assert_eq!(row_hit(&s, 6, 0), Some(YHit::Entry(1)));
    assert_eq!(row_hit(&s, 9, 0), None);
    assert_eq!(row_hit(&s, 0, 0), None);
    s.cycle_view_mode();
    s.cycle_view_mode();
    assert_eq!(row_hit(&s, 6, 7), None);
    assert_eq!(row_hit(&s, 6, 0), Some(YHit::Entry(3)));
    assert_eq!(row_hit(&s, 5, 7), Some(YHit::Entry(2)));
    s.set_search(Some("c".to_string()));
    assert_eq!(resolve_vis_idx(&s, 0), Some(2));
    assert_eq!(resolve_vis_idx(&s, 1), None);
    assert_eq!(sort_column_at(10), SortColumn::Name);
    assert_eq!(sort_column_at(44), SortColumn::Size);
    assert_eq!(sort_column_at(54), SortColumn::Modified);
    assert!(click_select(&mut s, 1, false, false));
    assert!(click_select(&mut s, 3, false, true));
    assert_eq!(s.selected_indices(), vec![1, 2, 3]);
    assert!(click_select(&mut s, 2, true, false));
    assert_eq!(s.selected_indices(), vec![1, 3]);
    assert!(!click_select(&mut s, 9, false, false));
}

#[test]
fn row_texts() {
    let s = state("/home/u", vec![]);
    assert_eq!(header_text(&s), "  /home/u");
    let mut t = state("/x", vec![]);
    t.toggle_hidden();
    t.set_search(Some("ab".to_string()));
    assert_eq!(header_text(&t), "  /x [H]  [Search: ab]");
    assert_eq!(
        column_header_text(SortColumn::Size, SortOrder::Desc),
        format!("    Name {}{:<12} {:>8}{}  {}{}", " ", "", "Size", "▼", "Modified", " ")
    );
    let e = file("report.txt", 1);
    assert_eq!(list_row(&e, false), "   report.txt");
    assert_eq!(list_row(&e, true), "▶ report.txt");
    assert_eq!(compact_row(&dir("a-very-long-directory-name"), true), "▶📁 a-very-long-di");
    assert_eq!(
        detail_row(&e, true, "1 B", "2024-01-02 03:04"),
        format!("▶ {:<20} {:>8} {}", "report.txt", "1 B", "2024-01-02 03:04")
    );
    assert_eq!(
        detail_row(&e, false, "1 B", "2024-01-02 03:04"),
        format!("    {:<20} {:>8} {}", "report.txt", "1 B", "2024-01-02 03:04")
    );
    assert_eq!(entry_rgb(true, true), (56, 164, 240));
    assert_eq!(entry_rgb(false, true), (226, 200, 100));
    assert_eq!(entry_rgb(false, false), (170, 174, 182));
}

#[test]
fn preview_kinds_and_texts() {
    assert_eq!(preview_kind("/a/b/readme.MD"), PreviewKind::Text);
    assert_eq!(preview_kind("/a/photo.JPEG"), PreviewKind::Image);
    assert_eq!(preview_kind("/a/anim.gif"), PreviewKind::UnsupportedImage);
    assert_eq!(preview_kind("/a/archive.tar.gz"), PreviewKind::Binary);
    assert_eq!(preview_kind("/a/Makefile"), PreviewKind::Binary);
    assert_eq!(text_preview("a\r\nb\nc"), "a\nb\nc");
    let long: String = (0..150).map(|i| format!("{i}\n")).collect();
    let p = text_preview(&long);
    assert_eq!(p.lines().count(), 100);
    assert!(p.ends_with("99"));
    assert_eq!(dimensions_text(640, 480), "640x480");
    assert_eq!(too_large_text(4096, 10).as_deref(), Some("Image too large: 4096x10"));
    assert_eq!(too_large_text(2048, 2048), None);
    assert!(decode_image(b"not a picture").is_none());
}

#[test]
fn decode_image_reads_png() {
    // A 1 x 1 red PNG, written by the image crate's encoder.
    let img = image::RgbaImage::from_raw(1, 1, vec![255, 0, 0, 255]).unwrap();
    let mut png = std::io::Cursor::new(Vec::new());
    img.write_to(&mut png, image::ImageFormat::Png).unwrap();
    let png = png.into_inner();
    let (rgba, w, h) = decode_image(&png).expect("decodes");
    assert_eq!((w, h), (1, 1));
    assert_eq!(rgba, vec![255, 0, 0, 255]);
}

#[test]
fn status_line_texts() {
    let mut s = state("/d", vec![dir("sub"), file("a.txt", 1000), file("b.txt", 24)]);
    let info = status_info(&s, |n| format!("{n} B"));
    assert_eq!(info.message(), "  3 items [hidden: off] — /d");
    s.select_single(1);
    let info = status_info(&s, |n| format!("{n} B"));
    assert_eq!(info.selected_size.as_deref(), Some("1000 B"));
    assert_eq!(info.message(), "  3 items [hidden: off] | a.txt: 1000 B — /d");
    s.select_single(0);
    assert_eq!(status_info(&s, |n| format!("{n} B")).message(), "  3 items [hidden: off] | sub/ — /d");
    s.select_range(1, 2);
    let info = status_info(&s, |n| format!("{n} B"));
    assert_eq!(info.selected_total_size, 1024);
    assert_eq!(info.message(), "  3 items [hidden: off] | 2 selected (1.0 KB) — /d");
    let big = StatusInfo {
        item_count: 0, show_hidden: true, selected_name: None, selected_size: None,
        selected_count: 0, selected_total_size: 0, current_path: "/".to_string(),
    };
    assert_eq!(big.message(), "  0 items [hidden: on] — /");
    let gig = StatusInfo {
        item_count: 2, show_hidden: false, selected_name: None, selected_size: None,
        selected_count: 2, selected_total_size: 1 << 30, current_path: "/".to_string(),
    };
    assert_eq!(gig.message(), "  2 items [hidden: off] | 2 selected (1.0 GB) — /");
}

#[test]
fn selected_total_reports_overflow() {
    let mut s = state("/d", vec![file("a", u64::MAX - 1), file("b", 1), file("c", 1)]);
    s.select_range(0, 1);
    assert_eq!(selected_total(&s), Some(u64::MAX));
    s.select_all();
    assert_eq!(selected_total(&s), None);
    s.toggle_select(2);
    s.toggle_select(1);
    assert_eq!(selected_total(&s), Some(u64::MAX - 1));
}

#[test]
fn breadcrumb_segments() {
    let crumbs = breadcrumbs("/home/ユーザ");
    let got: Vec<(&str, &str, usize, usize)> = crumbs.iter().map(|c| (c.label.as_str(), c.path.as_str(), c.start, c.end)).collect();
    assert_eq!(got, vec![("/", "/", 6, 7), ("home", "/home", 10, 14), ("ユーザ", "/home/ユーザ", 17, 26)]);
    assert_eq!(breadcrumbs("/").len(), 1);
}

#[test]
fn breadcrumb_cell_lookup() {
    let crumbs = breadcrumbs("/home/ユーザ");
    assert_eq!(crumb_at(&crumbs, 6), Some(0));
    assert_eq!(crumb_at(&crumbs, 7), None);
    assert_eq!(crumb_at(&crumbs, 10), Some(1));
    assert_eq!(crumb_at(&crumbs, 13), Some(1));
    assert_eq!(crumb_at(&crumbs, 25), Some(2));
    assert_eq!(crumb_at(&crumbs, 26), None);
    assert_eq!(crumb_at(&crumbs, 0), None);
}
