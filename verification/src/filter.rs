//! Discovered entries and the per-entry filter: regular files only, the
//! extension filter, and the file-name check of the ignore patterns.

use crate::text::{chars_of, contains_chars, spec_contains};
use vstd::prelude::*;

verus! {

/// What kind of thing a discovered path is.
#[derive(Clone, Copy, Debug, PartialEq, Eq, Structural)]
pub enum EntryKind {
    File,
    Directory,
    Other,
}

/// A discovered path with the values that filtering and rendering read.
/// `file_name` and `extension` are `None` where the path has none or where
/// it is not valid text.
#[derive(Clone, Debug)]
pub struct FileEntry {
    pub path: String,
    pub kind: EntryKind,
    pub file_name: Option<String>,
    pub extension: Option<String>,
}

/// The per-entry filter settings.
#[derive(Clone, Debug)]
pub struct FilterConfig {
    /// Allowed extensions; none means that every extension is allowed.
    pub extensions: Vec<String>,
    /// Whether the ignore patterns are checked against bare file names.
    pub ignore_files_only: bool,
    /// The ignore patterns.
    pub ignore_patterns: Vec<String>,
}

/// The text of an optional string.
pub open spec fn spec_text(o: Option<String>) -> Option<Seq<char>> {
    match o {
        Some(s) => Some(s@),
        None => None,
    }
}

/// The lower-case form of an ASCII capital; every other character is kept.
pub open spec fn spec_ascii_lower(c: char) -> char {
    if 'A' <= c && c <= 'Z' {
        ((c as u8 + 32) as u8) as char
    } else {
        c
    }
}

/// A text with its ASCII capitals made lower-case.
pub open spec fn spec_ascii_lowercase(s: Seq<char>) -> Seq<char> {
    Seq::new(s.len(), |i: int| spec_ascii_lower(s[i]))
}

/// Equality of two texts up to the case of ASCII letters.
pub open spec fn spec_eq_ignore_ascii_case(a: Seq<char>, b: Seq<char>) -> bool {
    spec_ascii_lowercase(a) == spec_ascii_lowercase(b)
}

/// Whether an extension passes the extension filter: an empty filter allows
/// everything, a non-empty one only an extension that equals one of its
/// items up to ASCII case.
pub open spec fn spec_extension_allowed(extension: Option<Seq<char>>, allowed: Seq<String>) -> bool {
    allowed.len() == 0 || match extension {
        Some(e) => spec_matches_some(e, allowed),
        None => false,
    }
}

/// Whether `e` equals one of the items of `allowed` up to ASCII case.
pub open spec fn spec_matches_some(e: Seq<char>, allowed: Seq<String>) -> bool {
    exists|i: int| 0 <= i < allowed.len() && spec_eq_ignore_ascii_case(e, (#[trigger] allowed[i])@)
}

/// Whether a file name is excluded by the file-name check: the check is on,
/// and some pattern is a substring of the name.
pub open spec fn spec_name_ignored(
    file_name: Option<Seq<char>>,
    files_only: bool,
    patterns: Seq<String>,
) -> bool {
    files_only && match file_name {
        Some(n) => exists|i: int| 0 <= i < patterns.len() && spec_contains(n, (#[trigger] patterns[i])@),
        None => false,
    }
}

/// Whether an entry is rendered.
pub open spec fn spec_should_process(entry: FileEntry, config: FilterConfig) -> bool {
    &&& entry.kind == EntryKind::File
    &&& spec_extension_allowed(spec_text(entry.extension), config.extensions@)
    &&& !spec_name_ignored(
        spec_text(entry.file_name),
        config.ignore_files_only,
        config.ignore_patterns@,
    )
}

/// The lower-case form of an ASCII capital; every other character is kept.
pub fn ascii_lower(c: char) -> (r: char)
    ensures
        r == spec_ascii_lower(c),
{
    if 'A' <= c && c <= 'Z' {
        ((c as u8) + 32) as char
    } else {
        c
    }
}

/// Whether two texts are equal up to the case of ASCII letters.
pub fn eq_ignore_ascii_case(a: &str, b: &str) -> (r: bool)
    ensures
        r == spec_eq_ignore_ascii_case(a@, b@),
{
    let x = chars_of(a);
    let y = chars_of(b);
    if x.len() != y.len() {
        assert(spec_ascii_lowercase(a@).len() != spec_ascii_lowercase(b@).len());
        return false;
    }
    let mut i: usize = 0;
    while i < x.len()
        invariant
            i <= x.len(),
            x.len() == y.len(),
            x@ == a@,
            y@ == b@,
            forall|k: int| 0 <= k < i ==> spec_ascii_lower(x@[k]) == spec_ascii_lower(y@[k]),
        decreases x.len() - i,
    {
        if ascii_lower(x[i]) != ascii_lower(y[i]) {
            assert(spec_ascii_lowercase(a@)[i as int] != spec_ascii_lowercase(b@)[i as int]);
            return false;
        }
        i += 1;
    }
    assert(spec_ascii_lowercase(a@) =~= spec_ascii_lowercase(b@));
    true
}

/// Whether `extension` passes the filter `allowed`.
pub fn extension_allowed(extension: &Option<String>, allowed: &Vec<String>) -> (r: bool)
    ensures
        r == spec_extension_allowed(spec_text(*extension), allowed@),
{
    if allowed.len() == 0 {
        return true;
    }
    match extension {
        None => false,
        Some(e) => {
            let mut i: usize = 0;
            while i < allowed.len()
                invariant
                    i <= allowed.len(),
                    spec_text(*extension) == Some(e@),
                    forall|k: int|
                        0 <= k < i ==> !spec_eq_ignore_ascii_case(e@, (#[trigger] allowed@[k])@),
                decreases allowed.len() - i,
            {
                if eq_ignore_ascii_case(e.as_str(), allowed[i].as_str()) {
                    assert(spec_eq_ignore_ascii_case(e@, allowed@[i as int]@));
                    return true;
                }
                i += 1;
            }
            false
        },
    }
}

/// Whether the file-name check excludes `file_name`.
pub fn name_ignored(file_name: &Option<String>, files_only: bool, patterns: &Vec<String>) -> (r:
    bool)
    ensures
        r == spec_name_ignored(spec_text(*file_name), files_only, patterns@),
{
    if !files_only {
        return false;
    }
    match file_name {
        None => false,
        Some(n) => {
            let name = chars_of(n.as_str());
            let mut i: usize = 0;
            while i < patterns.len()
                invariant
                    i <= patterns.len(),
                    files_only,
                    spec_text(*file_name) == Some(n@),
                    name@ == n@,
                    forall|k: int| 0 <= k < i ==> !spec_contains(n@, (#[trigger] patterns@[k])@),
                decreases patterns.len() - i,
            {
                let p = chars_of(patterns[i].as_str());
                if contains_chars(&name, &p) {
                    assert(spec_contains(n@, patterns@[i as int]@));
                    return true;
                }
                i += 1;
            }
            false
        },
    }
}

/// Decides whether a discovered entry is rendered: it must be a regular
/// file, pass the extension filter, and not be excluded by the file-name
/// check of the ignore patterns.
pub fn should_process_entry(entry: &FileEntry, config: &FilterConfig) -> (r: bool)
    ensures
        r == spec_should_process(*entry, *config),
{
    if entry.kind != EntryKind::File {
        return false;
    }
    if !extension_allowed(&entry.extension, &config.extensions) {
        return false;
    }
    !name_ignored(&entry.file_name, config.ignore_files_only, &config.ignore_patterns)
}

/// Only regular files are rendered: a directory, the root of a walk among
/// them, and every other kind of entry is rejected, whatever the settings.
pub proof fn lemma_only_files_pass(entry: FileEntry, config: FilterConfig)
    requires
        entry.kind != EntryKind::File,
    ensures
        !spec_should_process(entry, config),
{
}

/// The extension filter looks at neither the case of ASCII letters nor the
/// order of the allowed extensions: two extensions that are equal up to
/// case, held against two filters of which each item equals an item of the
/// other up to case, fare alike.
pub proof fn lemma_extension_filter_case_and_order(
    a: Seq<char>,
    b: Seq<char>,
    x: Seq<String>,
    y: Seq<String>,
)
    requires
        spec_eq_ignore_ascii_case(a, b),
        forall|i: int| 0 <= i < x.len() ==> spec_matches_some((#[trigger] x[i])@, y),
        forall|j: int| 0 <= j < y.len() ==> spec_matches_some((#[trigger] y[j])@, x),
    ensures
        spec_extension_allowed(Some(a), x) == spec_extension_allowed(Some(b), y),
        spec_extension_allowed(None, x) == spec_extension_allowed(None, y),
{
    if x.len() > 0 {
        assert(spec_matches_some(x[0]@, y));
    }
    if y.len() > 0 {
        assert(spec_matches_some(y[0]@, x));
    }
    if spec_matches_some(a, x) {
        let i = choose|i: int|
            0 <= i < x.len() && spec_eq_ignore_ascii_case(a, (#[trigger] x[i])@);
        assert(spec_matches_some(x[i]@, y));
        let j = choose|j: int|
            0 <= j < y.len() && spec_eq_ignore_ascii_case(x[i]@, (#[trigger] y[j])@);
        assert(spec_eq_ignore_ascii_case(b, y[j]@));
    }
    if spec_matches_some(b, y) {
        let j = choose|j: int|
            0 <= j < y.len() && spec_eq_ignore_ascii_case(b, (#[trigger] y[j])@);
        assert(spec_matches_some(y[j]@, x));
        let i = choose|i: int|
            0 <= i < x.len() && spec_eq_ignore_ascii_case(y[j]@, (#[trigger] x[i])@);
        assert(spec_eq_ignore_ascii_case(a, x[i]@));
    }
}

} // verus!
