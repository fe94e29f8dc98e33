use files_to_prompt::filter::{EntryKind, FileEntry};
use files_to_prompt::format::{OutputFormat, SequenceCounter};
use files_to_prompt::run::{step, Action, Event};
use files_to_prompt::traversal::ignore_glob;

fn entry(path: &str) -> FileEntry {
    FileEntry {
        path: path.to_string(),
        kind: EntryKind::File,
        file_name: Some(path.to_string()),
        extension: None,
    }
}

fn written(action: Action) -> String {
    match action {
        Action::Write(text) => text,
        Action::Warn(text) => panic!("warning: {}", text),
    }
}

fn warned(action: Action) -> String {
    match action {
        Action::Warn(text) => text,
        Action::Write(text) => panic!("written: {}", text),
    }
}

#[test]
fn content_is_written() {
    let mut counter = SequenceCounter::new();
    let event = Event::Content {
        entry: entry("./a"),
        content: "x\n".to_string(),
    };
    let out = written(step(&mut counter, OutputFormat::Default, false, &event));
    assert_eq!(out, "a\n---\nx\n---\n\n");
    assert_eq!(counter.peek(), 1);
}

#[test]
fn skipped_files_take_no_index() {
    let mut counter = SequenceCounter::new();
    let format = OutputFormat::Cxml;
    let a = written(step(
        &mut counter,
        format,
        false,
        &Event::Content {
            entry: entry("a"),
            content: "A".to_string(),
        },
    ));
    assert!(a.starts_with("<document index=\"1\">\n"));
    let w = warned(step(
        &mut counter,
        format,
        false,
        &Event::NotText { entry: entry("./b") },
    ));
    assert_eq!(w, "Warning: Skipping file ./b - Not valid UTF-8.");
    let w = warned(step(
        &mut counter,
        format,
        false,
        &Event::ReadFailed {
            entry: entry("c"),
            reason: "denied".to_string(),
        },
    ));
    assert_eq!(w, "Warning: Skipping file c - Error reading: denied");
    let w = warned(step(
        &mut counter,
        format,
        false,
        &Event::WalkFailed {
            reason: "loop".to_string(),
        },
    ));
    assert_eq!(w, "Warning: Error during directory walk: loop");
    assert_eq!(counter.peek(), 2);
    let d = written(step(
        &mut counter,
        format,
        false,
        &Event::Content {
            entry: entry("d"),
            content: "D".to_string(),
        },
    ));
    assert!(d.starts_with("<document index=\"2\">\n"));
    assert_eq!(counter.peek(), 3);
}

#[test]
fn override_glob_negates_the_pattern() {
    assert_eq!(ignore_glob("*.log"), "!*.log");
    assert_eq!(ignore_glob(""), "!");
}
