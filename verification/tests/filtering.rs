use files_to_prompt::filter::{
    eq_ignore_ascii_case, extension_allowed, name_ignored, should_process_entry, EntryKind,
    FileEntry, FilterConfig,
};

fn entry(path: &str, kind: EntryKind, name: Option<&str>, ext: Option<&str>) -> FileEntry {
    FileEntry {
        path: path.to_string(),
        kind,
        file_name: name.map(|n| n.to_string()),
        extension: ext.map(|e| e.to_string()),
    }
}

fn config(extensions: &[&str], files_only: bool, patterns: &[&str]) -> FilterConfig {
    FilterConfig {
        extensions: extensions.iter().map(|e| e.to_string()).collect(),
        ignore_files_only: files_only,
        ignore_patterns: patterns.iter().map(|p| p.to_string()).collect(),
    }
}

#[test]
fn upper_case_extension_passes_lower_case_filter() {
    let e = entry("Foo.RS", EntryKind::File, Some("Foo.RS"), Some("RS"));
    assert!(should_process_entry(&e, &config(&["rs"], false, &[])));
    assert!(should_process_entry(&e, &config(&["py", "rs"], false, &[])));
    assert!(should_process_entry(&e, &config(&["rs", "py"], false, &[])));
    assert!(should_process_entry(&e, &config(&["Rs"], false, &[])));
    assert!(!should_process_entry(&e, &config(&["py"], false, &[])));
}

#[test]
fn empty_filter_allows_everything() {
    let c = config(&[], false, &[]);
    assert!(should_process_entry(
        &entry("a.txt", EntryKind::File, Some("a.txt"), Some("txt")),
        &c
    ));
    assert!(should_process_entry(
        &entry("Makefile", EntryKind::File, Some("Makefile"), None),
        &c
    ));
}

#[test]
fn missing_extension_is_rejected_by_a_filter() {
    let c = config(&["txt"], false, &[]);
    assert!(!should_process_entry(
        &entry("Makefile", EntryKind::File, Some("Makefile"), None),
        &c
    ));
}

#[test]
fn only_regular_files_pass() {
    let c = config(&[], false, &[]);
    assert!(!should_process_entry(
        &entry("dir", EntryKind::Directory, Some("dir"), None),
        &c
    ));
    assert!(!should_process_entry(
        &entry("sock", EntryKind::Other, Some("sock"), None),
        &c
    ));
}

#[test]
fn file_name_check_excludes_matching_names() {
    let e = entry("src/test_a.rs", EntryKind::File, Some("test_a.rs"), Some("rs"));
    assert!(!should_process_entry(&e, &config(&[], true, &["test_"])));
    assert!(!should_process_entry(&e, &config(&[], true, &["zzz", ".rs"])));
    assert!(should_process_entry(&e, &config(&[], true, &["src"])));
    assert!(should_process_entry(&e, &config(&[], true, &[])));
    assert!(should_process_entry(&e, &config(&[], false, &["test_"])));
}

#[test]
fn file_name_check_needs_a_name() {
    let e = entry("x", EntryKind::File, None, None);
    assert!(should_process_entry(&e, &config(&[], true, &["x"])));
    assert!(!name_ignored(&None, true, &vec!["x".to_string()]));
    assert!(name_ignored(&Some("axb".to_string()), true, &vec!["x".to_string()]));
    assert!(!name_ignored(&Some("axb".to_string()), false, &vec!["x".to_string()]));
}

#[test]
fn ascii_case_only() {
    assert!(eq_ignore_ascii_case("RS", "rs"));
    assert!(eq_ignore_ascii_case("Html", "hTML"));
    assert!(eq_ignore_ascii_case("", ""));
    assert!(!eq_ignore_ascii_case("rs", "rss"));
    assert!(!eq_ignore_ascii_case("r_", "r?"));
    assert!(!eq_ignore_ascii_case("@", "`"));
    assert!(!eq_ignore_ascii_case("[", "{"));
    assert!(!eq_ignore_ascii_case("\u{c4}", "\u{e4}"));
    for (a, b) in [("Az", "aZ"), ("K", "\u{212a}"), ("x1", "X1"), ("a", "b")] {
        assert_eq!(eq_ignore_ascii_case(a, b), a.eq_ignore_ascii_case(b));
    }
}

#[test]
fn extension_filter_ignores_order() {
    let ext = Some("Py".to_string());
    let x: Vec<String> = vec!["rs".into(), "py".into(), "c".into()];
    let y: Vec<String> = vec!["C".into(), "PY".into(), "RS".into(), "py".into()];
    assert_eq!(extension_allowed(&ext, &x), extension_allowed(&ext, &y));
    assert!(extension_allowed(&ext, &x));
    assert!(!extension_allowed(&Some("go".to_string()), &y));
    assert!(!extension_allowed(&None, &y));
    assert!(extension_allowed(&None, &Vec::new()));
}
