//! The fixed table from file extensions to Markdown language tags.

use crate::text::chars_of;
use vstd::prelude::*;

verus! {

/// The lower-case form of a text, as the standard library computes it.
pub uninterp spec fn spec_lowercase(s: Seq<char>) -> Seq<char>;

/// `str::to_lowercase` of the standard library: the result is a function of
/// the text alone, named `spec_lowercase` here.
pub assume_specification[ str::to_lowercase ](s: &str) -> (r: String)
    ensures
        r@ == spec_lowercase(s@),
;

/// The table, in the order in which it is searched.
pub open spec fn spec_language_table() -> Seq<(Seq<char>, Seq<char>)> {
    seq![
        ("py"@, "python"@),
        ("rs"@, "rust"@),
        ("c"@, "c"@),
        ("h"@, "c"@),
        ("cpp"@, "cpp"@),
        ("hpp"@, "cpp"@),
        ("java"@, "java"@),
        ("js"@, "javascript"@),
        ("ts"@, "typescript"@),
        ("html"@, "html"@),
        ("css"@, "css"@),
        ("xml"@, "xml"@),
        ("json"@, "json"@),
        ("yaml"@, "yaml"@),
        ("yml"@, "yaml"@),
        ("sh"@, "bash"@),
        ("rb"@, "ruby"@),
        ("md"@, "markdown"@),
        ("toml"@, "toml"@),
        ("go"@, "go"@),
        ("php"@, "php"@),
        ("swift"@, "swift"@),
        ("kt"@, "kotlin"@),
        ("sql"@, "sql"@),
    ]
}

/// The tag of the first entry of `table` whose extension is `key`.
pub open spec fn spec_lookup(table: Seq<(Seq<char>, Seq<char>)>, key: Seq<char>) -> Option<
    Seq<char>,
>
    decreases table.len(),
{
    if table.len() == 0 {
        None
    } else if table[0].0 == key {
        Some(table[0].1)
    } else {
        spec_lookup(table.skip(1), key)
    }
}

/// The tag that a fence carries for a file with this extension: the table's
/// entry for the lower-case extension, or nothing where the file has no
/// extension or the table has no entry.
pub open spec fn spec_language_tag(extension: Option<Seq<char>>) -> Seq<char> {
    match extension {
        None => Seq::empty(),
        Some(e) => spec_tag_of_key(spec_lowercase(e)),
    }
}

/// The tag of a lower-case extension, or nothing where the table lacks it.
pub open spec fn spec_tag_of_key(key: Seq<char>) -> Seq<char> {
    match spec_lookup(spec_language_table(), key) {
        Some(tag) => tag,
        None => Seq::empty(),
    }
}

/// A key that no entry of the table has is not found.
pub proof fn lemma_lookup_absent(table: Seq<(Seq<char>, Seq<char>)>, key: Seq<char>)
    requires
        forall|i: int| 0 <= i < table.len() ==> (#[trigger] table[i]).0 != key,
    ensures
        spec_lookup(table, key) is None,
    decreases table.len(),
{
    if table.len() > 0 {
        let rest = table.skip(1);
        assert forall|i: int| 0 <= i < rest.len() implies (#[trigger] rest[i]).0 != key by {
            assert(rest[i] == table[i + 1]);
        }
        lemma_lookup_absent(rest, key);
    }
}

/// A key that some entry of the table has is found, with the tag of the
/// first such entry.
pub proof fn lemma_lookup_present(table: Seq<(Seq<char>, Seq<char>)>, key: Seq<char>, at: int)
    requires
        0 <= at < table.len(),
        table[at].0 == key,
        forall|i: int| 0 <= i < at ==> (#[trigger] table[i]).0 != key,
    ensures
        spec_lookup(table, key) == Some(table[at].1),
    decreases at,
{
    if at > 0 {
        let rest = table.skip(1);
        assert forall|i: int| 0 <= i < at - 1 implies (#[trigger] rest[i]).0 != key by {
            assert(rest[i] == table[i + 1]);
        }
        assert(rest[at - 1] == table[at]);
        lemma_lookup_present(rest, key, at - 1);
    }
}

/// A table from extensions to language tags. The first entry with a given
/// extension counts.
pub struct LanguageMap {
    pub entries: Vec<(&'static str, &'static str)>,
}

impl LanguageMap {
    /// The table as pairs of texts.
    pub open spec fn view(&self) -> Seq<(Seq<char>, Seq<char>)> {
        Seq::new(self.entries@.len(), |i: int| (self.entries@[i].0@, self.entries@[i].1@))
    }

    /// The tag recorded for `key`, compared exactly.
    pub fn get(&self, key: &str) -> (tag: Option<&'static str>)
        ensures
            match tag {
                Some(t) => spec_lookup(self@, key@) == Some(t@),
                None => spec_lookup(self@, key@) is None,
            },
    {
        let k = chars_of(key);
        let mut i: usize = 0;
        assert(self@.skip(0) =~= self@);
        while i < self.entries.len()
            invariant
                i <= self.entries.len(),
                k@ == key@,
                spec_lookup(self@, key@) == spec_lookup(self@.skip(i as int), key@),
            decreases self.entries.len() - i,
        {
            let e = chars_of(self.entries[i].0);
            assert(self@.skip(i as int)[0] == self@[i as int]);
            assert(self@.skip(i as int).skip(1) =~= self@.skip(i + 1));
            if same_chars(&e, &k) {
                return Some(self.entries[i].1);
            }
            i += 1;
        }
        None
    }
}

/// Whether two character vectors are equal.
pub fn same_chars(a: &Vec<char>, b: &Vec<char>) -> (r: bool)
    ensures
        r == (a@ == b@),
{
    if a.len() != b.len() {
        return false;
    }
    let mut i: usize = 0;
    while i < a.len()
        invariant
            i <= a.len(),
            a.len() == b.len(),
            forall|k: int| 0 <= k < i ==> a@[k] == b@[k],
        decreases a.len() - i,
    {
        if a[i] != b[i] {
            return false;
        }
        i += 1;
    }
    assert(a@ =~= b@);
    true
}

/// Builds the table from extensions to language tags.
pub fn initialize_language_map() -> (m: LanguageMap)
    ensures
        m@ == spec_language_table(),
{
    let mut entries: Vec<(&'static str, &'static str)> = Vec::new();
    entries.push(("py", "python"));
    entries.push(("rs", "rust"));
    entries.push(("c", "c"));
    entries.push(("h", "c"));
    entries.push(("cpp", "cpp"));
    entries.push(("hpp", "cpp"));
    entries.push(("java", "java"));
    entries.push(("js", "javascript"));
    entries.push(("ts", "typescript"));
    entries.push(("html", "html"));
    entries.push(("css", "css"));
    entries.push(("xml", "xml"));
    entries.push(("json", "json"));
    entries.push(("yaml", "yaml"));
    entries.push(("yml", "yaml"));
    entries.push(("sh", "bash"));
    entries.push(("rb", "ruby"));
    entries.push(("md", "markdown"));
    entries.push(("toml", "toml"));
    entries.push(("go", "go"));
    entries.push(("php", "php"));
    entries.push(("swift", "swift"));
    entries.push(("kt", "kotlin"));
    entries.push(("sql", "sql"));
    let m = LanguageMap { entries };
    assert(m@ =~= spec_language_table());
    m
}

/// The tag for a lower-case extension: the table's entry, or the empty
/// string where it has none.
pub fn tag_of_key(key: &str) -> (tag: String)
    ensures
        tag@ == spec_tag_of_key(key@),
{
    let m = initialize_language_map();
    match m.get(key) {
        Some(t) => String::from_str(t),
        None => String::new(),
    }
}

/// The language tag for a file with the given extension, if it has one.
pub fn language_tag(extension: Option<&str>) -> (tag: String)
    ensures
        tag@ == spec_language_tag(
            match extension {
                Some(e) => Some(e@),
                None => None,
            },
        ),
{
    match extension {
        None => String::new(),
        Some(e) => {
            let key = e.to_lowercase();
            tag_of_key(key.as_str())
        },
    }
}

} // verus!
