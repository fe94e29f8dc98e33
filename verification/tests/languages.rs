use files_to_prompt::language::{initialize_language_map, language_tag, same_chars, tag_of_key};
use files_to_prompt::text::{chars_of, contains_chars, occurs_at, push_range};

#[test]
fn table_has_the_known_extensions() {
    let m = initialize_language_map();
    assert_eq!(m.entries.len(), 24);
    assert_eq!(m.get("py"), Some("python"));
    assert_eq!(m.get("rs"), Some("rust"));
    assert_eq!(m.get("js"), Some("javascript"));
    assert_eq!(m.get("h"), Some("c"));
    assert_eq!(m.get("hpp"), Some("cpp"));
    assert_eq!(m.get("yml"), Some("yaml"));
    assert_eq!(m.get("sh"), Some("bash"));
    assert_eq!(m.get("kt"), Some("kotlin"));
    assert_eq!(m.get("sql"), Some("sql"));
    assert_eq!(m.get("PY"), None);
    assert_eq!(m.get(""), None);
    assert_eq!(m.get("p"), None);
}

#[test]
fn table_keys_are_distinct() {
    let m = initialize_language_map();
    for (i, a) in m.entries.iter().enumerate() {
        for b in m.entries.iter().skip(i + 1) {
            assert_ne!(a.0, b.0);
        }
    }
}

#[test]
fn tag_is_looked_up_in_lower_case() {
    assert_eq!(language_tag(Some("py")), "python");
    assert_eq!(language_tag(Some("Py")), "python");
    assert_eq!(language_tag(Some("TOML")), "toml");
    assert_eq!(language_tag(Some("unknown")), "");
    assert_eq!(language_tag(None), "");
    assert_eq!(tag_of_key("go"), "go");
    assert_eq!(tag_of_key("GO"), "");
    assert_eq!(language_tag(Some("\u{212a}t")), "kotlin");
    assert_eq!(tag_of_key("\u{212a}t"), "");
}

#[test]
fn substring_search() {
    let contains = |hay: &str, needle: &str| contains_chars(&chars_of(hay), &chars_of(needle));
    assert!(contains("hello", "ell"));
    assert!(contains("hello", ""));
    assert!(contains("", ""));
    assert!(contains("hello", "hello"));
    assert!(contains("hello", "o"));
    assert!(!contains("hello", "hello!"));
    assert!(!contains("hello", "elo"));
    assert!(!contains("", "a"));
    assert!(contains("a``b```c", "```"));
    assert!(!contains("a``b``c", "```"));
    for (hay, needle) in [("abcabc", "cab"), ("aaa", "aaaa"), ("x\u{e9}y", "\u{e9}y"), ("ab", "ba")] {
        assert_eq!(contains(hay, needle), hay.contains(needle));
    }
    let hay = chars_of("abcabd");
    assert!(occurs_at(&hay, &chars_of("abd"), 3));
    assert!(!occurs_at(&hay, &chars_of("abd"), 0));
    assert!(contains_chars(&hay, &chars_of("cab")));
}

#[test]
fn characters_and_back() {
    let text = "a\u{e9}\u{1f600}z";
    let v = chars_of(text);
    assert_eq!(v, vec!['a', '\u{e9}', '\u{1f600}', 'z']);
    let mut back = String::from(">");
    push_range(&mut back, &v, 1, 3);
    assert_eq!(back, ">\u{e9}\u{1f600}");
    assert!(same_chars(&v, &chars_of(text)));
    assert!(!same_chars(&v, &chars_of("a")));
}
