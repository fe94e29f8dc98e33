//! Rendering of one file in the default, Markdown or tagged format, the
//! run-wide document counter, and the envelope of a run.

use crate::filter::{spec_text, FileEntry};
use crate::language::{language_tag, spec_language_tag};
use crate::line_numbers::{add_line_numbers, decimal, spec_add_line_numbers, spec_decimal};
use crate::text::{chars_of, contains_chars, push_range, spec_contains, spec_occurs_at};
use vstd::prelude::*;

verus! {

/// The output format of a run.
#[derive(Clone, Copy, Debug, PartialEq, Eq, Structural)]
pub enum OutputFormat {
    /// Path, a rule, the content, a rule, a blank line.
    Default,
    /// Path and a fenced code block.
    Markdown,
    /// Indexed `<document>` elements inside `<documents>`.
    Cxml,
}

impl OutputFormat {
    /// The format that two switches select: the tagged format where it is
    /// asked for, else Markdown where that is asked for, else the default.
    pub fn from_flags(cxml: bool, markdown: bool) -> (f: OutputFormat)
        ensures
            f == (if cxml {
                OutputFormat::Cxml
            } else if markdown {
                OutputFormat::Markdown
            } else {
                OutputFormat::Default
            }),
    {
        if cxml {
            OutputFormat::Cxml
        } else if markdown {
            OutputFormat::Markdown
        } else {
            OutputFormat::Default
        }
    }
}

/// The counter that numbers the documents of one run, from one upwards.
#[derive(Debug)]
pub struct SequenceCounter {
    next: usize,
}

impl SequenceCounter {
    /// The index that the next document gets.
    pub closed spec fn spec_next(&self) -> nat {
        self.next as nat
    }

    /// The counter at the start of a run.
    pub fn new() -> (c: SequenceCounter)
        ensures
            c.spec_next() == 1,
    {
        SequenceCounter { next: 1 }
    }

    /// The index that the next document gets.
    pub fn peek(&self) -> (n: usize)
        ensures
            n == self.spec_next(),
    {
        self.next
    }

    /// Whether another index can be handed out.
    pub fn has_next(&self) -> (b: bool)
        ensures
            b == (self.spec_next() < usize::MAX),
    {
        self.next < usize::MAX
    }

    /// Hands out the next index and moves on by one.
    pub fn next_index(&mut self) -> (index: usize)
        requires
            old(self).spec_next() < usize::MAX,
        ensures
            index == old(self).spec_next(),
            final(self).spec_next() == old(self).spec_next() + 1,
    {
        let index: usize = self.next;
        self.next = index + 1;
        index
    }
}

/// The path as it is shown: without a leading "./".
pub open spec fn spec_display_path(path: Seq<char>) -> Seq<char> {
    if path.len() >= 2 && path[0] == '.' && path[1] == '/' {
        path.skip(2)
    } else {
        path
    }
}

/// What stands for one character in the tagged format.
pub open spec fn spec_escape_char(c: char) -> Seq<char> {
    if c == '&' {
        seq!['&', 'a', 'm', 'p', ';']
    } else if c == '<' {
        seq!['&', 'l', 't', ';']
    } else if c == '>' {
        seq!['&', 'g', 't', ';']
    } else {
        seq![c]
    }
}

/// The text with `&`, `<` and `>` replaced by their entities.
pub open spec fn spec_escape(s: Seq<char>) -> Seq<char>
    decreases s.len(),
{
    if s.len() == 0 {
        Seq::empty()
    } else {
        spec_escape(s.drop_last()) + spec_escape_char(s.last())
    }
}

/// `n` backticks.
pub open spec fn spec_ticks(n: nat) -> Seq<char> {
    Seq::new(n, |i: int| '`')
}

/// The least length from `n` on whose run of backticks is no substring of
/// `content`.
pub open spec fn spec_fence_from(content: Seq<char>, n: nat) -> nat
    decreases content.len() + 1 - n,
{
    if n <= content.len() && spec_contains(content, spec_ticks(n)) {
        spec_fence_from(content, n + 1)
    } else {
        n
    }
}

/// The length of the fence round `content`: at least three, and the least
/// such length whose run of backticks is no substring of `content`.
pub open spec fn spec_fence_len(content: Seq<char>) -> nat {
    spec_fence_from(content, 3)
}

/// The text as whole lines: a line feed is added unless it ends in one. The
/// default format writes its content so.
pub open spec fn spec_terminated(text: Seq<char>) -> Seq<char> {
    if text.len() > 0 && text.last() == '\n' {
        text
    } else {
        text.push('\n')
    }
}

/// The content as it is rendered: numbered where that is asked for.
pub open spec fn spec_body(content: Seq<char>, line_numbers: bool) -> Seq<char> {
    if line_numbers {
        spec_add_line_numbers(content)
    } else {
        content
    }
}

/// One document in the default format: the content ends in exactly the
/// line feed that it has, or in one that is added.
pub open spec fn spec_render_default(path: Seq<char>, body: Seq<char>) -> Seq<char> {
    path + "\n"@ + "---\n"@ + spec_terminated(body) + "---\n"@ + "\n"@
}

/// One document in the Markdown format: the content is followed by one
/// line feed, whatever it ends in.
pub open spec fn spec_render_markdown(path: Seq<char>, tag: Seq<char>, body: Seq<char>) -> Seq<
    char,
> {
    let fence = spec_ticks(spec_fence_len(body));
    path + "\n"@ + fence + tag + "\n"@ + body + "\n"@ + fence + "\n"@ + "\n"@
}

/// What stands before the content of a document in the tagged format: the
/// start tag with the index, the path in its tags, and the opening of the
/// content block.
pub open spec fn spec_cxml_head(index: nat, path: Seq<char>) -> Seq<char> {
    "<document index=\""@ + spec_decimal(index) + "\">\n"@ + "<source>"@ + path + "</source>\n"@
        + "<document_content>\n"@
}

/// What stands behind the content of a document in the tagged format: one
/// line feed, the closing of the content block and the closing tag.
pub open spec fn spec_cxml_tail() -> Seq<char> {
    "\n"@ + "</document_content>\n"@ + "</document>\n"@
}

/// One document in the tagged format: the escaped content stands between
/// head and tail, so it is followed by one line feed, whatever it ends in.
pub open spec fn spec_render_cxml(index: nat, path: Seq<char>, body: Seq<char>) -> Seq<char> {
    spec_cxml_head(index, path) + spec_escape(body) + spec_cxml_tail()
}

/// What a document of the tagged format holds between its head and its
/// tail.
pub open spec fn spec_cxml_content(rendered: Seq<char>, index: nat, path: Seq<char>) -> Seq<char> {
    rendered.subrange(
        spec_cxml_head(index, path).len() as int,
        rendered.len() - spec_cxml_tail().len(),
    )
}

/// One document: `index` is read by the tagged format only.
pub open spec fn spec_print_file(
    path: Seq<char>,
    extension: Option<Seq<char>>,
    content: Seq<char>,
    format: OutputFormat,
    line_numbers: bool,
    index: nat,
) -> Seq<char> {
    let shown = spec_display_path(path);
    let body = spec_body(content, line_numbers);
    match format {
        OutputFormat::Default => spec_render_default(shown, body),
        OutputFormat::Markdown => spec_render_markdown(shown, spec_language_tag(extension), body),
        OutputFormat::Cxml => spec_render_cxml(index, shown, body),
    }
}

/// What opens a run.
pub open spec fn spec_envelope_open(format: OutputFormat) -> Seq<char> {
    if format == OutputFormat::Cxml {
        "<documents>\n"@
    } else {
        Seq::empty()
    }
}

/// What closes a run.
pub open spec fn spec_envelope_close(format: OutputFormat) -> Seq<char> {
    if format == OutputFormat::Cxml {
        "</documents>\n"@
    } else {
        Seq::empty()
    }
}

/// The path as it is shown: a leading "./" is taken off.
pub fn display_path(path: &str) -> (shown: String)
    ensures
        shown@ == spec_display_path(path@),
{
    let p = chars_of(path);
    let from: usize = if p.len() >= 2 && p[0] == '.' && p[1] == '/' {
        2
    } else {
        0
    };
    let mut shown = String::new();
    push_range(&mut shown, &p, from, p.len());
    proof {
        assert(p@.subrange(from as int, p.len() as int) =~= p@.skip(from as int));
        assert(p@.skip(0) =~= p@);
        assert(Seq::<char>::empty() + p@.skip(from as int) =~= p@.skip(from as int));
    }
    shown
}

/// Adds the entity-escaped form of `text` at the end of `out`.
pub fn push_escaped(out: &mut String, text: &Vec<char>)
    ensures
        final(out)@ == old(out)@ + spec_escape(text@),
{
    let mut i: usize = 0;
    assert(text@.take(0) =~= Seq::<char>::empty());
    assert(out@ + Seq::<char>::empty() =~= out@);
    while i < text.len()
        invariant
            i <= text.len(),
            out@ == old(out)@ + spec_escape(text@.take(i as int)),
        decreases text.len() - i,
    {
        let c = text[i];
        let ghost before = out@;
        if c == '&' {
            out.push('&');
            out.push('a');
            out.push('m');
            out.push('p');
            out.push(';');
        } else if c == '<' {
            out.push('&');
            out.push('l');
            out.push('t');
            out.push(';');
        } else if c == '>' {
            out.push('&');
            out.push('g');
            out.push('t');
            out.push(';');
        } else {
            out.push(c);
        }
        proof {
            let done = text@.take(i + 1);
            assert(done.drop_last() =~= text@.take(i as int));
            assert(done.last() == c);
            assert(out@ =~= before + spec_escape_char(c));
            assert(out@ =~= old(out)@ + spec_escape(done));
        }
        i += 1;
    }
    assert(text@.take(text.len() as int) =~= text@);
}

/// The text with `&`, `<` and `>` replaced by `&amp;`, `&lt;` and `&gt;`.
pub fn escape(text: &str) -> (out: String)
    ensures
        out@ == spec_escape(text@),
{
    let t = chars_of(text);
    let mut out = String::new();
    push_escaped(&mut out, &t);
    assert(Seq::<char>::empty() + spec_escape(t@) =~= spec_escape(t@));
    out
}

/// The fence for `body`: three backticks, or as many more as it takes for
/// the fence not to occur in `body`.
pub fn fence(body: &Vec<char>) -> (ticks: Vec<char>)
    ensures
        ticks@ == spec_ticks(spec_fence_len(body@)),
{
    let mut ticks: Vec<char> = Vec::new();
    ticks.push('`');
    ticks.push('`');
    ticks.push('`');
    assert(ticks@ =~= spec_ticks(3));
    while ticks.len() <= body.len() && contains_chars(body, &ticks)
        invariant
            ticks.len() >= 3,
            ticks@ == spec_ticks(ticks.len() as nat),
            spec_fence_len(body@) == spec_fence_from(body@, ticks.len() as nat),
        decreases body.len() + 1 - ticks.len(),
    {
        ticks.push('`');
        assert(ticks@ =~= spec_ticks(ticks.len() as nat));
    }
    ticks
}

/// Adds `text` at the end of `out`, and a line feed unless `text` ends in
/// one.
pub fn push_terminated(out: &mut String, text: &str)
    ensures
        final(out)@ == old(out)@ + spec_terminated(text@),
{
    let t = chars_of(text);
    push_range(out, &t, 0, t.len());
    assert(t@.subrange(0, t.len() as int) =~= t@);
    if t.len() == 0 || t[t.len() - 1] != '\n' {
        out.push('\n');
        assert(out@ =~= old(out)@ + spec_terminated(text@));
    }
}

/// One document in the default format: the path, a rule, the body as whole
/// lines, a rule, a blank line.
pub fn render_default(shown: &str, body: &str) -> (out: String)
    ensures
        out@ == spec_render_default(shown@, body@),
{
    let mut out = String::new();
    out.append(shown);
    out.append("\n");
    out.append("---\n");
    push_terminated(&mut out, body);
    out.append("---\n");
    out.append("\n");
    assert(out@ =~= spec_render_default(shown@, body@));
    out
}

/// One document in the Markdown format: the path, the opening fence with
/// the language tag, the body and a line feed, the closing fence, a blank
/// line. The fence is longer than every run of backticks in the body.
pub fn render_markdown(shown: &str, tag: &str, body: &str) -> (out: String)
    ensures
        out@ == spec_render_markdown(shown@, tag@, body@),
{
    let b = chars_of(body);
    let ticks = fence(&b);
    let mut out = String::new();
    out.append(shown);
    out.append("\n");
    push_range(&mut out, &ticks, 0, ticks.len());
    out.append(tag);
    out.append("\n");
    out.append(body);
    out.append("\n");
    push_range(&mut out, &ticks, 0, ticks.len());
    out.append("\n");
    out.append("\n");
    proof {
        assert(ticks@.subrange(0, ticks.len() as int) =~= ticks@);
        assert(out@ =~= spec_render_markdown(shown@, tag@, body@));
    }
    out
}

/// One document in the tagged format: the start tag with the index, the
/// path, and inside the tags of the content block the escaped body and a
/// line feed.
pub fn render_cxml(index: usize, shown: &str, body: &str) -> (out: String)
    ensures
        out@ == spec_render_cxml(index as nat, shown@, body@),
{
    let numeral = decimal(index);
    let escaped = escape(body);
    let mut out = String::new();
    out.append("<document index=\"");
    push_range(&mut out, &numeral, 0, numeral.len());
    out.append("\">\n");
    out.append("<source>");
    out.append(shown);
    out.append("</source>\n");
    out.append("<document_content>\n");
    out.append(escaped.as_str());
    out.append("\n");
    out.append("</document_content>\n");
    out.append("</document>\n");
    proof {
        assert(numeral@.subrange(0, numeral.len() as int) =~= numeral@);
        assert(out@ =~= spec_render_cxml(index as nat, shown@, body@));
    }
    out
}

/// Renders one file. The path is shown without a leading "./"; the content
/// is numbered first where `line_numbers` is set. The tagged format takes
/// the document's index from `counter` and moves it on by one; the other
/// formats leave the counter alone.
pub fn print_file(
    entry: &FileEntry,
    content: &str,
    format: OutputFormat,
    line_numbers: bool,
    counter: &mut SequenceCounter,
) -> (out: String)
    requires
        format == OutputFormat::Cxml ==> old(counter).spec_next() < usize::MAX,
    ensures
        out@ == spec_print_file(
            entry.path@,
            spec_text(entry.extension),
            content@,
            format,
            line_numbers,
            old(counter).spec_next(),
        ),
        final(counter).spec_next() == old(counter).spec_next() + (if format == OutputFormat::Cxml {
            1nat
        } else {
            0nat
        }),
{
    let shown = display_path(entry.path.as_str());
    let body: String = if line_numbers {
        add_line_numbers(content)
    } else {
        String::from_str(content)
    };
    match format {
        OutputFormat::Cxml => {
            let index: usize = counter.next_index();
            render_cxml(index, shown.as_str(), body.as_str())
        },
        OutputFormat::Markdown => {
            let tag = match &entry.extension {
                Some(e) => language_tag(Some(e.as_str())),
                None => language_tag(None),
            };
            render_markdown(shown.as_str(), tag.as_str(), body.as_str())
        },
        OutputFormat::Default => render_default(shown.as_str(), body.as_str()),
    }
}

/// What a run writes before its first document: the opening tag of the
/// tagged format, nothing in the other formats.
pub fn envelope_open(format: OutputFormat) -> (out: String)
    ensures
        out@ == spec_envelope_open(format),
{
    match format {
        OutputFormat::Cxml => String::from_str("<documents>\n"),
        _ => String::new(),
    }
}

/// What a run writes after its last document: the closing tag of the tagged
/// format, nothing in the other formats.
pub fn envelope_close(format: OutputFormat) -> (out: String)
    ensures
        out@ == spec_envelope_close(format),
{
    match format {
        OutputFormat::Cxml => String::from_str("</documents>\n"),
        _ => String::new(),
    }
}

/// A file that is to be rendered: the entry and its decoded content.
#[derive(Clone, Debug)]
pub struct Document {
    pub entry: FileEntry,
    pub content: String,
}

/// The index of the document at position `k` of a run whose first document
/// has the index `first`.
pub open spec fn spec_index_at(first: nat, k: nat) -> nat {
    first + k
}

/// One document of a run, rendered with the index `index`.
pub open spec fn spec_print_document(
    doc: Document,
    format: OutputFormat,
    line_numbers: bool,
    index: nat,
) -> Seq<char> {
    spec_print_file(
        doc.entry.path@,
        spec_text(doc.entry.extension),
        doc.content@,
        format,
        line_numbers,
        index,
    )
}

/// The documents of a run one after the other, in their order; the document
/// at position `k` is rendered with the index `first + k`.
pub open spec fn spec_print_files(
    docs: Seq<Document>,
    format: OutputFormat,
    line_numbers: bool,
    first: nat,
) -> Seq<char>
    decreases docs.len(),
{
    if docs.len() == 0 {
        Seq::empty()
    } else {
        spec_print_files(docs.drop_last(), format, line_numbers, first) + spec_print_document(
            docs.last(),
            format,
            line_numbers,
            spec_index_at(first, (docs.len() - 1) as nat),
        )
    }
}

/// A whole run: the envelope round the documents, which count from one.
pub open spec fn spec_render_run(docs: Seq<Document>, format: OutputFormat, line_numbers: bool) -> Seq<
    char,
> {
    spec_envelope_open(format) + spec_print_files(docs, format, line_numbers, 1)
        + spec_envelope_close(format)
}

/// Renders a whole run: the opening of the envelope, every document in the
/// given order, and the closing of the envelope. In the tagged format the
/// documents carry the indices one, two, three and so on.
pub fn render_run(docs: &Vec<Document>, format: OutputFormat, line_numbers: bool) -> (out: String)
    requires
        format == OutputFormat::Cxml ==> docs.len() < usize::MAX,
    ensures
        out@ == spec_render_run(docs@, format, line_numbers),
{
    let mut counter = SequenceCounter::new();
    let mut out = envelope_open(format);
    let mut i: usize = 0;
    assert(docs@.take(0) =~= Seq::<Document>::empty());
    assert(out@ + Seq::<char>::empty() =~= out@);
    while i < docs.len()
        invariant
            i <= docs.len(),
            format == OutputFormat::Cxml ==> docs.len() < usize::MAX,
            counter.spec_next() == (if format == OutputFormat::Cxml {
                i + 1
            } else {
                1
            }),
            out@ == spec_envelope_open(format) + spec_print_files(
                docs@.take(i as int),
                format,
                line_numbers,
                1,
            ),
        decreases docs.len() - i,
    {
        let ghost index = counter.spec_next();
        let piece = print_file(
            &docs[i].entry,
            docs[i].content.as_str(),
            format,
            line_numbers,
            &mut counter,
        );
        out.append(piece.as_str());
        proof {
            let done = docs@.take(i + 1);
            assert(done.drop_last() =~= docs@.take(i as int));
            assert(done.last() == docs@[i as int]);
            lemma_index_unread(docs@[i as int], format, line_numbers, index, spec_index_at(1, i as nat));
            assert(out@ =~= spec_envelope_open(format) + spec_print_files(
                done,
                format,
                line_numbers,
                1,
            ));
        }
        i += 1;
    }
    assert(docs@.take(docs.len() as int) =~= docs@);
    let close = envelope_close(format);
    out.append(close.as_str());
    out
}

/// Outside the tagged format the index is not read.
pub proof fn lemma_index_unread(
    doc: Document,
    format: OutputFormat,
    line_numbers: bool,
    a: nat,
    b: nat,
)
    requires
        format == OutputFormat::Cxml ==> a == b,
    ensures
        spec_print_document(doc, format, line_numbers, a) == spec_print_document(
            doc,
            format,
            line_numbers,
            b,
        ),
{
}

/// The indices of a run start at one and increase by one from each document
/// to the next, so they increase strictly in the order of the documents.
pub proof fn lemma_indices_increase(i: nat, j: nat)
    requires
        i < j,
    ensures
        spec_index_at(1, 0) == 1,
        spec_index_at(1, i) + 1 == spec_index_at(1, i + 1),
        spec_index_at(1, i) < spec_index_at(1, j),
{
}

/// A run over several roots is the runs over each root one after the other,
/// with the indices carried on: the documents `a` followed by the documents
/// `b` render as `a` does, followed by `b` with the indices that come after
/// those of `a`.
pub proof fn lemma_print_files_append(
    a: Seq<Document>,
    b: Seq<Document>,
    format: OutputFormat,
    line_numbers: bool,
    first: nat,
)
    ensures
        spec_print_files(a + b, format, line_numbers, first) == spec_print_files(
            a,
            format,
            line_numbers,
            first,
        ) + spec_print_files(b, format, line_numbers, first + a.len()),
    decreases b.len(),
{
    let left = spec_print_files(a, format, line_numbers, first);
    if b.len() == 0 {
        assert(a + b =~= a);
        assert(left + Seq::<char>::empty() =~= left);
    } else {
        lemma_print_files_append(a, b.drop_last(), format, line_numbers, first);
        assert((a + b).drop_last() =~= a + b.drop_last());
        assert((a + b).last() == b.last());
        let mid = spec_print_files(b.drop_last(), format, line_numbers, first + a.len());
        let end = spec_print_document(
            b.last(),
            format,
            line_numbers,
            spec_index_at(first, (a.len() + b.len() - 1) as nat),
        );
        assert((left + mid) + end =~= left + (mid + end));
    }
}

/// Runs of `a` backticks hold runs of every shorter length.
pub proof fn lemma_shorter_run(content: Seq<char>, a: nat, b: nat)
    requires
        b <= a,
        spec_contains(content, spec_ticks(a)),
    ensures
        spec_contains(content, spec_ticks(b)),
{
    let i = choose|i: int| #[trigger] spec_occurs_at(content, spec_ticks(a), i);
    let sub = content.subrange(i, i + b);
    assert forall|j: int| 0 <= j < b implies #[trigger] sub[j] == '`' by {
        assert(content.subrange(i, i + a)[j] == spec_ticks(a)[j]);
    }
    assert(sub =~= spec_ticks(b));
    assert(spec_occurs_at(content, spec_ticks(b), i));
}

/// From `n` on, the fence search ends at the first length whose run of
/// backticks is no substring of the content.
pub proof fn lemma_fence_from(content: Seq<char>, n: nat)
    ensures
        spec_fence_from(content, n) >= n,
        !spec_contains(content, spec_ticks(spec_fence_from(content, n))),
        forall|m: nat|
            n <= m < spec_fence_from(content, n) ==> spec_contains(content, #[trigger] spec_ticks(m)),
    decreases content.len() + 1 - n,
{
    if n <= content.len() && spec_contains(content, spec_ticks(n)) {
        lemma_fence_from(content, n + 1);
    } else if n > content.len() {
        assert forall|i: int| !#[trigger] spec_occurs_at(content, spec_ticks(n), i) by {
            assert(spec_ticks(n).len() == n);
        }
    }
}

/// The fence never occurs in the content that it encloses, and it has at
/// least three backticks.
pub proof fn lemma_fence_not_in_content(content: Seq<char>)
    ensures
        spec_fence_len(content) >= 3,
        !spec_contains(content, spec_ticks(spec_fence_len(content))),
{
    lemma_fence_from(content, 3);
}

/// Where the longest run of backticks in the content has length `k`, the
/// fence has `k + 1` backticks, and three where that is less.
pub proof fn lemma_fence_length(content: Seq<char>, k: nat)
    requires
        spec_contains(content, spec_ticks(k)),
        !spec_contains(content, spec_ticks(k + 1)),
    ensures
        spec_fence_len(content) == (if k + 1 > 3 {
            k + 1
        } else {
            3
        }),
{
    let f = spec_fence_len(content);
    lemma_fence_from(content, 3);
    if f <= k {
        lemma_shorter_run(content, k, f);
    }
    if f > k + 1 && k + 1 >= 3 {
        assert(spec_contains(content, spec_ticks(k + 1)));
    }
    if k + 1 < 3 && f > 3 {
        assert(spec_contains(content, spec_ticks(3)));
        lemma_shorter_run(content, 3, k + 1);
    }
}

} // verus!
