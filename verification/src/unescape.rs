//! The inverse of entity escaping, as textual replacement, and the proofs
//! that it gives the escaped content back, from the escaped text and from
//! a rendered document.

use crate::format::{
    spec_cxml_content, spec_cxml_head, spec_cxml_tail, spec_display_path, spec_escape,
    spec_escape_char, spec_print_file, spec_render_cxml, OutputFormat,
};
use vstd::prelude::*;

verus! {

/// Whether `s` begins with `p`.
pub open spec fn spec_starts_with(s: Seq<char>, p: Seq<char>) -> bool {
    p.len() <= s.len() && s.take(p.len() as int) == p
}

/// `s` with every occurrence of `pat` replaced by `rep`; occurrences are
/// found from the left and do not overlap. An empty `pat` replaces nothing.
pub open spec fn spec_replace(s: Seq<char>, pat: Seq<char>, rep: Seq<char>) -> Seq<char>
    decreases s.len(),
{
    if s.len() == 0 || pat.len() == 0 {
        s
    } else if spec_starts_with(s, pat) {
        rep + spec_replace(s.skip(pat.len() as int), pat, rep)
    } else {
        seq![s[0]] + spec_replace(s.skip(1), pat, rep)
    }
}

/// The inverse substitutions in reverse order: `&gt;` to `>`, then `&lt;` to
/// `<`, then `&amp;` to `&`.
pub open spec fn spec_unescape(s: Seq<char>) -> Seq<char> {
    spec_replace(
        spec_replace(spec_replace(s, spec_escape_char('>'), seq!['>']), spec_escape_char('<'), seq!['<']),
        spec_escape_char('&'),
        seq!['&'],
    )
}

/// The character that is escaped at `level` and not below it: `&` at one,
/// `<` at two, `>` at three.
pub open spec fn spec_level_char(level: nat) -> char {
    if level == 1 {
        '&'
    } else if level == 2 {
        '<'
    } else {
        '>'
    }
}

/// What stands for `c` where only the characters up to `level` are escaped.
pub open spec fn spec_escape_char_upto(c: char, level: nat) -> Seq<char> {
    if (c == '&' && level >= 1) || (c == '<' && level >= 2) || (c == '>' && level >= 3) {
        spec_escape_char(c)
    } else {
        seq![c]
    }
}

/// The text with only the characters up to `level` escaped.
pub open spec fn spec_escape_upto(s: Seq<char>, level: nat) -> Seq<char>
    decreases s.len(),
{
    if s.len() == 0 {
        Seq::empty()
    } else {
        spec_escape_char_upto(s[0], level) + spec_escape_upto(s.skip(1), level)
    }
}

/// Escaping up to a level goes through a character added at the end.
pub proof fn lemma_escape_upto_push(s: Seq<char>, c: char, level: nat)
    ensures
        spec_escape_upto(s.push(c), level) == spec_escape_upto(s, level) + spec_escape_char_upto(
            c,
            level,
        ),
    decreases s.len(),
{
    let e = spec_escape_char_upto(c, level);
    if s.len() == 0 {
        assert(s.push(c).skip(1) =~= Seq::<char>::empty());
        assert(s.push(c)[0] == c);
        assert(spec_escape_upto(Seq::<char>::empty(), level) =~= Seq::<char>::empty());
        assert(spec_escape_upto(s, level) =~= Seq::<char>::empty());
        assert(spec_escape_upto(s.push(c), level) =~= e + Seq::<char>::empty());
        assert(e + Seq::<char>::empty() =~= Seq::<char>::empty() + e);
    } else {
        lemma_escape_upto_push(s.skip(1), c, level);
        assert(s.push(c).skip(1) =~= s.skip(1).push(c));
        let h = spec_escape_char_upto(s[0], level);
        let t = spec_escape_upto(s.skip(1), level);
        assert(h + (t + e) =~= (h + t) + e);
    }
}

/// Escaping is escaping up to the third level.
pub proof fn lemma_escape_is_upto_three(s: Seq<char>)
    ensures
        spec_escape(s) == spec_escape_upto(s, 3),
    decreases s.len(),
{
    if s.len() > 0 {
        lemma_escape_is_upto_three(s.drop_last());
        lemma_escape_upto_push(s.drop_last(), s.last(), 3);
        assert(s.drop_last().push(s.last()) =~= s);
    }
}

/// Escaping up to level zero changes nothing.
pub proof fn lemma_escape_upto_zero(s: Seq<char>)
    ensures
        spec_escape_upto(s, 0) == s,
    decreases s.len(),
{
    if s.len() > 0 {
        lemma_escape_upto_zero(s.skip(1));
        assert(seq![s[0]] + s.skip(1) =~= s);
    }
}

/// Replacement copies a prefix in which `pat` cannot begin: at each of its
/// positions the first character of `pat` is missing, or the second one is
/// within the prefix and differs.
pub proof fn lemma_replace_copies(pre: Seq<char>, rest: Seq<char>, pat: Seq<char>, rep: Seq<char>)
    requires
        pat.len() >= 2,
        forall|j: int|
            0 <= j < pre.len() ==> #[trigger] pre[j] != pat[0] || (j + 1 < pre.len() && pre[j + 1] != pat[1]),
    ensures
        spec_replace(pre + rest, pat, rep) == pre + spec_replace(rest, pat, rep),
    decreases pre.len(),
{
    let s = pre + rest;
    if pre.len() == 0 {
        assert(s =~= rest);
        assert(pre + spec_replace(rest, pat, rep) =~= spec_replace(rest, pat, rep));
    } else {
        if spec_starts_with(s, pat) {
            assert(s.take(pat.len() as int)[0] == pat[0]);
            assert(s.take(pat.len() as int)[1] == pat[1]);
            assert(s[0] == pre[0]);
            assert(pre[0] != pat[0] || (1 < pre.len() && pre[1] != pat[1]));
            assert(false);
        }
        let tail = pre.skip(1);
        assert(s.skip(1) =~= tail + rest);
        assert forall|j: int| 0 <= j < tail.len() implies #[trigger] tail[j] != pat[0] || (j + 1 < tail.len()
            && tail[j + 1] != pat[1]) by {
            assert(pre[j + 1] != pat[0] || (j + 2 < pre.len() && pre[j + 2] != pat[1]));
        }
        lemma_replace_copies(tail, rest, pat, rep);
        assert(seq![s[0]] + (tail + spec_replace(rest, pat, rep)) =~= pre + spec_replace(
            rest,
            pat,
            rep,
        ));
    }
}

/// Replacement turns a leading `pat` into `rep`.
pub proof fn lemma_replace_match(rest: Seq<char>, pat: Seq<char>, rep: Seq<char>)
    requires
        pat.len() > 0,
    ensures
        spec_replace(pat + rest, pat, rep) == rep + spec_replace(rest, pat, rep),
{
    let s = pat + rest;
    assert(s.take(pat.len() as int) =~= pat);
    assert(s.skip(pat.len() as int) =~= rest);
}

/// Replacing the entity of one level by its character takes the escaping
/// down by one level.
pub proof fn lemma_unescape_level(s: Seq<char>, level: nat)
    requires
        1 <= level <= 3,
    ensures
        spec_replace(
            spec_escape_upto(s, level),
            spec_escape_char(spec_level_char(level)),
            seq![spec_level_char(level)],
        ) == spec_escape_upto(s, (level - 1) as nat),
    decreases s.len(),
{
    let pat = spec_escape_char(spec_level_char(level));
    let rep = seq![spec_level_char(level)];
    let below = (level - 1) as nat;
    if s.len() > 0 {
        let c = s[0];
        let pre = spec_escape_char_upto(c, level);
        let rest = spec_escape_upto(s.skip(1), level);
        lemma_unescape_level(s.skip(1), level);
        if c == spec_level_char(level) {
            assert(pre == pat);
            lemma_replace_match(rest, pat, rep);
            assert(spec_escape_char_upto(c, below) == rep);
        } else {
            assert(pre == spec_escape_char_upto(c, below));
            assert(pat[0] == '&');
            assert forall|j: int| 0 <= j < pre.len() implies #[trigger] pre[j] != pat[0] || (j + 1 < pre.len()
                && pre[j + 1] != pat[1]) by {
                if c == '&' && level >= 1 {
                    assert(pre == seq!['&', 'a', 'm', 'p', ';']);
                } else if c == '<' && level >= 2 {
                    assert(pre == seq!['&', 'l', 't', ';']);
                } else {
                    assert(pre == seq![c]);
                }
            }
            lemma_replace_copies(pre, rest, pat, rep);
        }
    }
}

/// Un-escaping an escaped text, by the inverse substitutions in reverse
/// order, gives the text back.
pub proof fn lemma_escape_round_trip(content: Seq<char>)
    ensures
        spec_unescape(spec_escape(content)) == content,
{
    lemma_escape_is_upto_three(content);
    lemma_unescape_level(content, 3);
    lemma_unescape_level(content, 2);
    lemma_unescape_level(content, 1);
    lemma_escape_upto_zero(content);
}

/// A document of the tagged format gives its content back: what stands
/// between the opening of the content block and the line feed before its
/// closing, un-escaped, is the body that was rendered.
pub proof fn lemma_cxml_round_trip(index: nat, path: Seq<char>, body: Seq<char>)
    ensures
        spec_unescape(spec_cxml_content(spec_render_cxml(index, path, body), index, path)) == body,
{
    let head = spec_cxml_head(index, path);
    let inner = spec_escape(body);
    let rendered = head + inner + spec_cxml_tail();
    assert(rendered.subrange(head.len() as int, rendered.len() - spec_cxml_tail().len())
        =~= inner);
    lemma_escape_round_trip(body);
}

/// A file printed in the tagged format without line numbers gives its
/// content back exactly: the content block of the output, un-escaped by the
/// inverse substitutions in reverse order, is the content, whatever it
/// holds and whatever it ends in.
pub proof fn lemma_print_file_round_trip(
    path: Seq<char>,
    extension: Option<Seq<char>>,
    content: Seq<char>,
    index: nat,
)
    ensures
        spec_unescape(
            spec_cxml_content(
                spec_print_file(path, extension, content, OutputFormat::Cxml, false, index),
                index,
                spec_display_path(path),
            ),
        ) == content,
{
    lemma_cxml_round_trip(index, spec_display_path(path), content);
}

/// Two contents that print alike in the tagged format are the same
/// content: no content is lost in the output.
pub proof fn lemma_print_file_injective(
    path: Seq<char>,
    extension: Option<Seq<char>>,
    a: Seq<char>,
    b: Seq<char>,
    index: nat,
)
    requires
        spec_print_file(path, extension, a, OutputFormat::Cxml, false, index) == spec_print_file(
            path,
            extension,
            b,
            OutputFormat::Cxml,
            false,
            index,
        ),
    ensures
        a == b,
{
    lemma_print_file_round_trip(path, extension, a, index);
    lemma_print_file_round_trip(path, extension, b, index);
}

} // verus!
