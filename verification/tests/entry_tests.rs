use hayate_fileview::entry::{
    compare_entry_keys, format_modified, format_size, listing, pad_to_width, truncate_to_width, DirEntry, LocalTime, SortColumn,
    SortOrder,
};
use hayate_fileview::entry_order::compare_entries;

fn entry(name: &str, is_dir: bool, size: u64, modified: Option<(i64, u32)>) -> DirEntry {
    DirEntry { name: name.to_string(), is_dir, is_symlink: false, size, modified }
}

fn names(v: &[DirEntry]) -> Vec<&str> {
    v.iter().map(|e| e.name.as_str()).collect()
}

#[test]
fn sort_order_toggle_and_indicator() {
    assert_eq!(SortOrder::Asc.toggle(), SortOrder::Desc);
    assert_eq!(SortOrder::Desc.toggle(), SortOrder::Asc);
    assert_eq!(SortOrder::Asc.indicator(), "▲");
    assert_eq!(SortOrder::Desc.indicator(), "▼");
}

#[test]
fn truncate_and_pad_count_wide_characters() {
    assert_eq!(truncate_to_width("hello world", 5), "hello");
    assert_eq!(truncate_to_width("日本語テキスト", 5), "日本");
    assert_eq!(truncate_to_width("ab", 10), "ab");
    assert_eq!(pad_to_width("日本", 6), "日本  ");
    assert_eq!(pad_to_width("abcdef", 3), "abcdef");
    assert_eq!(pad_to_width("", 0), "");
}

#[test]
fn display_line_columns() {
    let f = entry("notes.txt", false, 1, None);
    assert_eq!(f.display_line("1 B", "           —"), format!("    {:<20} {:>8} {}", "notes.txt", "1 B", "           —"));
    let d = entry("projects", true, 4096, None);
    assert_eq!(d.display_line("4.0 KB", "2024-01-01 00:00"), format!("📁  {:<20} {:>8} {}", "projects/", "", "2024-01-01 00:00"));
    let l = DirEntry { name: "a-rather-long-file-name.txt".to_string(), is_dir: false, is_symlink: true, size: 0, modified: None };
    assert_eq!(l.display_line("0 B", "x"), format!("🔗  {} {:>8} {}", "a-rather-long-file-n", "0 B", "x"));
}

#[test]
fn modified_column() {
    let t = LocalTime { year: 124, mon: 0, mday: 2, hour: 3, min: 4 };
    assert_eq!(format_modified(Some(t)), "2024-01-02 03:04");
    assert_eq!(format_modified(None), "           —");
}

#[test]
fn listing_orders_by_each_column() {
    let raw = || vec![
        entry("b", false, 30, Some((200, 0))),
        entry("A", false, 10, None),
        entry("dir", true, 0, Some((100, 5))),
        entry("c", false, 20, Some((100, 0))),
        entry(".dot", false, 5, None),
    ];
    assert_eq!(names(&listing(raw(), false, SortColumn::Name, SortOrder::Asc)), vec!["dir", "A", "b", "c"]);
    assert_eq!(names(&listing(raw(), false, SortColumn::Name, SortOrder::Desc)), vec!["dir", "c", "b", "A"]);
    assert_eq!(names(&listing(raw(), true, SortColumn::Size, SortOrder::Asc)), vec!["dir", ".dot", "A", "c", "b"]);
    assert_eq!(names(&listing(raw(), false, SortColumn::Modified, SortOrder::Asc)), vec!["dir", "A", "c", "b"]);
    assert_eq!(names(&listing(raw(), false, SortColumn::Modified, SortOrder::Desc)), vec!["dir", "b", "c", "A"]);
}

#[test]
fn listing_keeps_equal_entries_in_order() {
    let raw = vec![entry("x", false, 1, None), entry("y", false, 1, None), entry("z", false, 1, None)];
    assert_eq!(names(&listing(raw, false, SortColumn::Size, SortOrder::Desc)), vec!["x", "y", "z"]);
}

#[test]
fn comparison_is_antisymmetric() {
    let a = entry("Alpha", false, 1, Some((5, 1)));
    let b = entry("beta", false, 2, Some((5, 0)));
    for col in [SortColumn::Name, SortColumn::Size, SortColumn::Modified] {
        for ord in [SortOrder::Asc, SortOrder::Desc] {
            assert_eq!(compare_entry_keys(&a, &b, col, ord), -compare_entry_keys(&b, &a, col, ord));
            assert_eq!(compare_entry_keys(&a, &a, col, ord), 0);
            assert_eq!(compare_entries(&a, &b, col, ord), compare_entries(&b, &a, col, ord).reverse());
        }
    }
    assert_eq!(compare_entry_keys(&a, &b, SortColumn::Modified, SortOrder::Asc), 1);
}

fn float_size(bytes: u64) -> String {
    if bytes < 1024 {
        format!("{} B", bytes)
    } else if bytes < 1024 * 1024 {
        format!("{:.1} KB", bytes as f64 / 1024.0)
    } else if bytes < 1024 * 1024 * 1024 {
        format!("{:.1} MB", bytes as f64 / (1024.0 * 1024.0))
    } else if bytes < 1024u64 * 1024 * 1024 * 1024 {
        format!("{:.1} GB", bytes as f64 / (1024.0 * 1024.0 * 1024.0))
    } else {
        format!("{:.1} TB", bytes as f64 / (1024.0 * 1024.0 * 1024.0 * 1024.0))
    }
}

fn size_samples() -> Vec<u64> {
    let mut v: Vec<u64> = vec![0, 1, 1023, 1024, 1075, 1076, 1126, 1127, 1280, 1331, 1332, 1434, 1536, 1587, 1588];
    for k in 1..5u32 {
        let unit = 1u64 << (10 * k);
        for m in [1u64, 2, 3, 999, 1000, 1023] {
            for off in [0i64, -1, 1, (unit / 20) as i64, (unit / 4) as i64, (3 * unit / 4) as i64] {
                let b = (m * unit) as i64 + off;
                if b >= 0 {
                    v.push(b as u64);
                }
            }
        }
    }
    v.extend_from_slice(&[
        (1u64 << 53) - 1,
        1u64 << 53,
        (1u64 << 53) + 1,
        (1u64 << 53) + 3,
        (1u64 << 60) + 12345,
        u64::MAX - 1024,
        u64::MAX,
    ]);
    let mut x: u64 = 0x9e37_79b9_7f4a_7c15;
    for _ in 0..2000 {
        x ^= x << 13;
        x ^= x >> 7;
        x ^= x << 17;
        v.push(x >> (x % 64));
    }
    v
}

#[test]
fn format_size_matches_float_formatting() {
    for b in size_samples() {
        assert_eq!(format_size(b), float_size(b), "bytes = {b}");
        assert_eq!(DirEntry { name: "f".to_string(), is_dir: false, is_symlink: false, size: b, modified: None }.format_size(), float_size(b));
    }
}

#[test]
fn format_size_examples() {
    assert_eq!(format_size(512), "512 B");
    assert_eq!(format_size(1024), "1.0 KB");
    assert_eq!(format_size(1536), "1.5 KB");
    assert_eq!(format_size(1280), "1.2 KB");
    assert_eq!(format_size(1024 * 1024 - 1), "1024.0 KB");
    assert_eq!(format_size(5 * 1024 * 1024 * 1024), "5.0 GB");
    assert_eq!(format_size(u64::MAX), "16777216.0 TB");
    assert_eq!(format_size(1024 * 1024 * 1024), "1.0 GB");
}
