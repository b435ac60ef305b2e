use hayate_fileview::config::{parse_u32, Config};
use hayate_fileview::entry::{SortColumn, SortOrder};
use hayate_fileview::state::ViewMode;

/// The ratio text the window layer writes for a fraction, and the fraction
/// it reads back from such a text.
fn ratio_text(r: f32) -> String {
    format!("{:.4}", r)
}
fn ratio_value(t: &Option<String>) -> Option<f32> {
    t.as_ref().and_then(|s| s.parse::<f32>().ok()).filter(|v| (0.0..=1.0).contains(v))
}

#[test]
fn default_values() {
    let cfg = Config::default();
    assert!(!cfg.show_hidden);
    assert_eq!(cfg.sort_column, "name");
    assert_eq!(cfg.sort_order, "asc");
    assert_eq!(cfg.view_mode, "detail");
    assert_eq!(cfg.window_width, 750);
    assert_eq!(cfg.window_height, 450);
    assert_eq!(cfg.sidebar_ratio, None);
    assert_eq!(cfg.preview_ratio, None);
}

#[test]
fn roundtrip_format_parse() {
    let cfg = Config {
        show_hidden: true,
        sort_column: "size".into(),
        sort_order: "desc".into(),
        view_mode: "compact".into(),
        window_width: 1024,
        window_height: 768,
        sidebar_ratio: Some(ratio_text(0.2)),
        preview_ratio: Some(ratio_text(0.35)),
    };
    let text = cfg.format();
    let loaded = Config::parse(&text);
    assert!(loaded.show_hidden);
    assert_eq!(loaded.sort_column, "size");
    assert_eq!(loaded.sort_order, "desc");
    assert_eq!(loaded.view_mode, "compact");
    assert_eq!(loaded.window_width, 1024);
    assert_eq!(loaded.window_height, 768);
    assert!((ratio_value(&loaded.sidebar_ratio).unwrap() - 0.2).abs() < 0.001);
    assert!((ratio_value(&loaded.preview_ratio).unwrap() - 0.35).abs() < 0.001);
}

#[test]
fn ratio_none_roundtrip() {
    let cfg = Config { sidebar_ratio: None, preview_ratio: None, ..Config::default() };
    let loaded = Config::parse(&cfg.format());
    assert_eq!(loaded.sidebar_ratio, None);
    assert_eq!(loaded.preview_ratio, None);
}

#[test]
fn comments_and_blanks_ignored() {
    let text = "# comment\n\nshow_hidden = true\n";
    let cfg = Config::parse(text);
    assert!(cfg.show_hidden);
    assert_eq!(cfg.sort_column, "name"); // default preserved
}

#[test]
fn unknown_keys_ignored() {
    let text = "unknown_key = foo\nshow_hidden = true\n";
    let cfg = Config::parse(text);
    assert!(cfg.show_hidden);
}

#[test]
fn format_writes_fixed_lines() {
    let cfg = Config { sidebar_ratio: Some("0.2500".into()), ..Config::default() };
    assert_eq!(
        cfg.format(),
        "show_hidden = false\nsort_column = \"name\"\nsort_order = \"asc\"\nview_mode = \"detail\"\nwindow_width = 750\nwindow_height = 450\nsidebar_ratio = 0.2500\n"
    );
}

#[test]
fn parse_trims_and_unquotes() {
    let cfg = Config::parse("  sort_column   =  \"modified\"  \r\nview_mode=list\nwindow_width = +800\nwindow_height = big\nno equals sign\n");
    assert_eq!(cfg.sort_column, "modified");
    assert_eq!(cfg.view_mode, "list");
    assert_eq!(cfg.window_width, 800);
    assert_eq!(cfg.window_height, 450);
    assert_eq!(cfg.to_sort_column(), SortColumn::Modified);
    assert_eq!(cfg.to_view_mode(), ViewMode::List);
    assert_eq!(cfg.to_sort_order(), SortOrder::Asc);
}

#[test]
fn parse_keeps_last_value_and_ratio_text() {
    let cfg = Config::parse("show_hidden = true\nshow_hidden = yes\nsidebar_ratio = 1.5\npreview_ratio = \"0.3\"\n");
    assert!(!cfg.show_hidden);
    assert_eq!(cfg.sidebar_ratio.as_deref(), Some("1.5"));
    assert_eq!(cfg.preview_ratio.as_deref(), Some("0.3"));
}

#[test]
fn names_map_to_settings() {
    let mut cfg = Config::default();
    cfg.sort_column = "size".into();
    cfg.sort_order = "desc".into();
    cfg.view_mode = "compact".into();
    assert_eq!(cfg.to_sort_column(), SortColumn::Size);
    assert_eq!(cfg.to_sort_order(), SortOrder::Desc);
    assert_eq!(cfg.to_view_mode(), ViewMode::Compact);
    cfg.sort_column = "Size".into();
    assert_eq!(cfg.to_sort_column(), SortColumn::Name);
}

#[test]
fn parse_u32_like_std() {
    for s in ["0", "42", "+7", "4294967295", "4294967296", "", "+", "-1", "1 2", "007", "x"] {
        assert_eq!(parse_u32(s), s.parse::<u32>().ok(), "{s:?}");
    }
}

#[test]
fn ratio_out_of_range_ignored() {
    let text = "sidebar_ratio = 1.5\npreview_ratio = -0.1\n";
    let cfg = Config::parse(text);
    assert_eq!(ratio_value(&cfg.sidebar_ratio), None);
    assert_eq!(ratio_value(&cfg.preview_ratio), None);
    assert_eq!(cfg.sidebar_ratio.as_deref(), Some("1.5"));
}
