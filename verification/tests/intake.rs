use files_to_prompt::input::{is_whitespace, resolve_paths, split_paths, trimmed_range};

#[test]
fn splits_on_line_feeds_and_trims() {
    assert_eq!(
        split_paths("a.txt\n  b/c.rs \n\n\t\nd\n", false),
        vec!["a.txt", "b/c.rs", "d"]
    );
}

#[test]
fn splits_on_nul_when_asked() {
    assert_eq!(
        split_paths("a b\0c\nd\0\0 e \0", true),
        vec!["a b", "c\nd", "e"]
    );
    assert_eq!(split_paths("a\0b", false), vec!["a\0b"]);
}

#[test]
fn empty_and_blank_input_give_no_paths() {
    assert!(split_paths("", false).is_empty());
    assert!(split_paths("\n\n", false).is_empty());
    assert!(split_paths("  \r\n \t ", false).is_empty());
}

#[test]
fn windows_line_endings_are_trimmed_away() {
    assert_eq!(split_paths("a\r\nb\r\n", false), vec!["a", "b"]);
}

#[test]
fn last_piece_needs_no_separator() {
    assert_eq!(split_paths("a\nb", false), vec!["a", "b"]);
}

#[test]
fn split_follows_the_standard_library() {
    for text in ["", "x", " x \n y", "\u{a0}p\u{3000}\nq\u{2003}", "a\n\n\nb ", "\u{feff}z"] {
        let expected: Vec<String> = text
            .split('\n')
            .map(|p| p.trim())
            .filter(|p| !p.is_empty())
            .map(|p| p.to_string())
            .collect();
        assert_eq!(split_paths(text, false), expected);
    }
}

#[test]
fn trim_takes_white_space_off_both_ends() {
    let trim = |text: &str| -> String {
        let v: Vec<char> = text.chars().collect();
        trimmed_range(&v, 0, v.len())
    };
    assert_eq!(trim("  a b \t\n"), "a b");
    assert_eq!(trim(""), "");
    assert_eq!(trim(" \n "), "");
    assert_eq!(trim("x"), "x");
    let v: Vec<char> = "ab  cd  ef".chars().collect();
    assert_eq!(trimmed_range(&v, 2, 8), "cd");
    assert_eq!(trimmed_range(&v, 2, 4), "");
}

#[test]
fn white_space_matches_the_standard_library() {
    let mut c = '\0';
    loop {
        assert_eq!(is_whitespace(c), c.is_whitespace());
        if c == '\u{ffff}' {
            return;
        }
        c = char::from_u32(c as u32 + 1).unwrap_or('\u{e000}');
    }
}

#[test]
fn arguments_are_taken_as_they_are() {
    let args = vec![" b ".to_string(), "a".to_string(), "a".to_string()];
    assert_eq!(
        resolve_paths(args.clone(), Some("x\ny"), false),
        vec![" b ", "a", "a"]
    );
    assert_eq!(resolve_paths(args, None, true), vec![" b ", "a", "a"]);
}

#[test]
fn piped_text_is_used_without_arguments() {
    assert_eq!(
        resolve_paths(Vec::new(), Some("x\ny\n"), false),
        vec!["x", "y"]
    );
    assert_eq!(resolve_paths(Vec::new(), Some("x\0y"), true), vec!["x", "y"]);
}

#[test]
fn terminal_without_arguments_gives_nothing() {
    assert!(resolve_paths(Vec::new(), None, false).is_empty());
}
