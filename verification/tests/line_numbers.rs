use files_to_prompt::line_numbers::{add_line_numbers, decimal, digit, lines};

#[test]
fn numbers_every_line_in_order() {
    assert_eq!(add_line_numbers("a\nb\nc"), "1  a\n2  b\n3  c");
}

#[test]
fn final_line_ending_adds_no_line() {
    assert_eq!(add_line_numbers("a\nb\n"), "1  a\n2  b");
    assert_eq!(add_line_numbers("a\nb\n").lines().count(), 2);
}

#[test]
fn index_is_right_justified_to_width_of_count() {
    let content = "l\n".repeat(10);
    let out = add_line_numbers(&content);
    let got: Vec<&str> = out.split('\n').collect();
    assert_eq!(got.len(), 10);
    assert_eq!(got[0], " 1  l");
    assert_eq!(got[8], " 9  l");
    assert_eq!(got[9], "10  l");
}

#[test]
fn three_digit_width() {
    let content = "x\n".repeat(100);
    let out = add_line_numbers(&content);
    let got: Vec<&str> = out.split('\n').collect();
    assert_eq!(got.len(), 100);
    assert_eq!(got[0], "  1  x");
    assert_eq!(got[9], " 10  x");
    assert_eq!(got[99], "100  x");
}

#[test]
fn numbering_keeps_the_number_of_lines() {
    for content in ["one", "one\ntwo", "\n\n\n", "a\r\nb\r\n", "x\n\ny"] {
        let out = add_line_numbers(content);
        assert_eq!(out.lines().count(), content.lines().count());
        assert_eq!(lines(&out).len(), lines(content).len());
    }
}

#[test]
fn empty_content_has_no_lines() {
    assert_eq!(add_line_numbers(""), "");
    assert!(lines("").is_empty());
}

#[test]
fn empty_lines_are_numbered() {
    assert_eq!(add_line_numbers("\n\nx"), "1  \n2  \n3  x");
}

#[test]
fn lines_follow_the_standard_library() {
    for content in [
        "",
        "a",
        "a\n",
        "a\nb",
        "a\r\nb\r\n",
        "a\rb\n",
        "a\r\r\nb",
        "\n",
        "\r\n",
        "\n\n",
        "tail\r",
        "x\n\r",
    ] {
        let expected: Vec<String> = content.lines().map(|l| l.to_string()).collect();
        assert_eq!(lines(content), expected);
    }
}

#[test]
fn carriage_return_before_line_feed_is_dropped() {
    assert_eq!(add_line_numbers("a\r\nb\r\n"), "1  a\n2  b");
}

#[test]
fn decimal_numerals() {
    let s = |n: usize| -> String { decimal(n).into_iter().collect() };
    assert_eq!(s(0), "0");
    assert_eq!(s(7), "7");
    assert_eq!(s(10), "10");
    assert_eq!(s(1234567890), "1234567890");
    assert_eq!(s(usize::MAX), usize::MAX.to_string());
    assert_eq!(digit(0), '0');
    assert_eq!(digit(9), '9');
}
