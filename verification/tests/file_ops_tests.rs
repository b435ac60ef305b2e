use hayate_fileview::file_ops::{
    copy_batch, handle_uri_drop, move_batch, parse_uri_list, percent_decode, rename_target, run_batch,
    transfer_destination, trash_info_path, trash_info_text, uri_list_text, DestError, FileOpResult,
    format_iso8601, is_valid_new_name,
};
use hayate_fileview::paths::{new_folder_path, unique_path};

#[test]
fn parse_uri_list_basic() {
    let input = "file:///home/user/doc.txt\r\nfile:///tmp/image.png\r\n";
    let paths = parse_uri_list(input);
    assert_eq!(paths.len(), 2);
    assert_eq!(paths[0], "/home/user/doc.txt");
    assert_eq!(paths[1], "/tmp/image.png");
}

#[test]
fn parse_uri_list_with_comments_and_spaces() {
    let input = "# comment\nfile:///home/user/my%20file.txt\n";
    let paths = parse_uri_list(input);
    assert_eq!(paths.len(), 1);
    assert_eq!(paths[0], "/home/user/my file.txt");
}

#[test]
fn parse_uri_list_ignores_non_file() {
    let input = "http://example.com\nfile:///ok.txt\n";
    let paths = parse_uri_list(input);
    assert_eq!(paths.len(), 1);
    assert_eq!(paths[0], "/ok.txt");
}

#[test]
fn percent_decode_japanese() {
    // "テスト" in percent-encoded UTF-8
    let encoded = "/%E3%83%86%E3%82%B9%E3%83%88.txt";
    let decoded = percent_decode(encoded);
    assert_eq!(decoded, "/テスト.txt");
}

#[test]
fn unique_path_no_conflict() {
    // Non-existent path returns as-is
    let p = "/tmp/__nonexistent_test_file_12345__.txt";
    let exists = |q: &String| std::path::Path::new(q).exists();
    assert_eq!(unique_path(p, exists), Some(p.to_string()));
}

#[test]
fn unique_path_numbers_before_extension() {
    let taken = |q: &String| q == "/d/a.txt" || q == "/d/a(1).txt";
    assert_eq!(unique_path("/d/a.txt", taken), Some("/d/a(2).txt".to_string()));
    let taken_plain = |q: &String| q == "/d/notes";
    assert_eq!(unique_path("/d/notes", taken_plain), Some("/d/notes(1)".to_string()));
}

#[test]
fn new_folder_path_counts_up() {
    let taken = |q: &String| q == "/home/u/New Folder" || q == "/home/u/New Folder(1)";
    assert_eq!(new_folder_path("/home/u", taken), Some("/home/u/New Folder(2)".to_string()));
    assert_eq!(new_folder_path("/home/u", |_q: &String| false), Some("/home/u/New Folder".to_string()));
}

#[test]
fn percent_decode_keeps_incomplete_escapes() {
    assert_eq!(percent_decode("100%"), "100%");
    assert_eq!(percent_decode("%zz%41"), "%zzA");
    assert_eq!(percent_decode("a%2"), "a%2");
    assert_eq!(percent_decode("%+1x"), "%+1x");
    assert_eq!(percent_decode("%-1"), "%-1");
}

#[test]
fn percent_decode_round_trip_of_escaped_text() {
    let text = "/tmp/a b/テスト%.txt";
    let mut enc = String::new();
    for b in text.as_bytes() {
        enc.push_str(&format!("%{:02X}", b));
    }
    assert_eq!(percent_decode(&enc), text);
    assert_eq!(percent_decode("/plain/path.txt"), "/plain/path.txt");
}

#[test]
fn run_batch_stops_at_first_failure() {
    let srcs = vec!["a".to_string(), "bad".to_string(), "c".to_string()];
    let r = run_batch(&srcs, |s: &String| {
        if s == "bad" { Err(std::io::Error::new(std::io::ErrorKind::Other, "boom")) } else { Ok(()) }
    });
    match r {
        FileOpResult::Partial(done, e) => {
            assert_eq!(done, 1);
            assert_eq!(e.to_string(), "boom");
        }
        FileOpResult::Done(_) => panic!("expected a partial result"),
    }
    let all = run_batch(&srcs, |_s: &String| Ok(()));
    assert!(matches!(all, FileOpResult::Done(3)));
}

#[test]
fn copy_and_move_batches_report_every_success() {
    let srcs = vec!["/x/one".to_string(), "/x/two".to_string()];
    let ok = |s: &String, d: &str| -> std::io::Result<String> { Ok(format!("{}/{}", d, s.rsplit('/').next().unwrap())) };
    assert!(matches!(copy_batch(&srcs, "/dest", ok), FileOpResult::Done(2)));
    let fail_second = |s: &String, _d: &str| -> std::io::Result<String> {
        if s.ends_with("two") { Err(std::io::Error::new(std::io::ErrorKind::NotFound, "gone")) } else { Ok(s.clone()) }
    };
    assert!(matches!(move_batch(&srcs, "/dest", fail_second), FileOpResult::Partial(1, _)));
}

#[test]
fn handle_uri_drop_copies_parsed_paths() {
    let seen = std::cell::RefCell::new(Vec::new());
    let record = |s: &String, d: &str| -> std::io::Result<String> {
        seen.borrow_mut().push((s.clone(), d.to_string()));
        Ok(s.clone())
    };
    let r = handle_uri_drop("file:///a%20b\r\n# skip\r\nhttp://x\r\nfile:///c\r\n", "/dest", record);
    assert!(matches!(r, FileOpResult::Done(2)));
    assert_eq!(
        *seen.borrow(),
        vec![("/a b".to_string(), "/dest".to_string()), ("/c".to_string(), "/dest".to_string())]
    );
}

#[test]
fn handle_uri_drop_without_file_lines_copies_nothing() {
    let calls = std::cell::Cell::new(0usize);
    let record = |s: &String, _d: &str| -> std::io::Result<String> {
        calls.set(calls.get() + 1);
        Ok(s.clone())
    };
    let r = handle_uri_drop("# c\nhttp://x\n", "/dest", record);
    assert!(matches!(r, FileOpResult::Done(0)));
    assert_eq!(calls.get(), 0);
}

#[test]
fn transfer_destination_uses_file_name() {
    assert_eq!(transfer_destination("/src/pic.png", "/dst", |_q: &String| false), Ok("/dst/pic.png".to_string()));
    assert_eq!(
        transfer_destination("/src/pic.png", "/dst", |q: &String| q == "/dst/pic.png"),
        Ok("/dst/pic(1).png".to_string())
    );
    assert_eq!(transfer_destination("/", "/dst", |_q: &String| false), Err(DestError::NoFileName));
}

#[test]
fn trash_info_paths_and_text() {
    assert_eq!(trash_info_path("/h/.local/share/Trash/info", "/h/.local/share/Trash/files/a(1).txt"),
        "/h/.local/share/Trash/info/a(1).txt.trashinfo");
    assert_eq!(trash_info_text("/home/u/a.txt", "2024-01-02T03:04:05"),
        "[Trash Info]\nPath=/home/u/a.txt\nDeletionDate=2024-01-02T03:04:05\n");
    assert_eq!(trash_info_text("/tmp/a b", "2024-01-02T03:04:05"),
        "[Trash Info]\nPath=/tmp/a%20b\nDeletionDate=2024-01-02T03:04:05\n");
    assert_eq!(trash_info_text("/tmp/テ%~_-.x", "d"),
        "[Trash Info]\nPath=/tmp/%E3%83%86%25~_-.x\nDeletionDate=d\n");
    assert_eq!(format_iso8601(124, 0, 2, 3, 4, 5), "2024-01-02T03:04:05");
}

#[test]
fn rename_checks_and_target() {
    assert!(is_valid_new_name("new.txt"));
    assert!(!is_valid_new_name(""));
    assert!(!is_valid_new_name("a/b"));
    assert!(!is_valid_new_name("a\0b"));
    assert_eq!(rename_target("/home/u/old.txt", "new.txt"), Some("/home/u/new.txt".to_string()));
    assert_eq!(rename_target("/", "x"), None);
}

#[test]
fn uri_list_text_round_trips_through_parse() {
    let paths = vec!["/home/u/a.txt".to_string(), "/tmp/b c".to_string()];
    let text = uri_list_text(&paths);
    assert_eq!(text, "file:///home/u/a.txt\r\nfile:///tmp/b c");
    assert_eq!(parse_uri_list(&text), paths);
    let wide = vec!["/home/u/テスト.txt".to_string(), "/tmp/a\rb".to_string(), String::new()];
    assert_eq!(parse_uri_list(&uri_list_text(&wide)), wide);
}
