//! Intake of the root paths: the arguments as they are, or else the pieces
//! of the piped text.

use crate::text::{chars_of, lemma_find, push_range, spec_find, spec_views};
use vstd::prelude::*;

verus! {

/// Whether a character is white space: the characters that Unicode lists
/// as White_Space.
pub open spec fn spec_is_whitespace(c: char) -> bool {
    ||| ('\u{9}' <= c && c <= '\u{d}')
    ||| c == ' '
    ||| c == '\u{85}'
    ||| c == '\u{a0}'
    ||| c == '\u{1680}'
    ||| ('\u{2000}' <= c && c <= '\u{200a}')
    ||| c == '\u{2028}'
    ||| c == '\u{2029}'
    ||| c == '\u{202f}'
    ||| c == '\u{205f}'
    ||| c == '\u{3000}'
}

/// The text without its leading white space.
pub open spec fn spec_trim_start(s: Seq<char>) -> Seq<char>
    decreases s.len(),
{
    if s.len() > 0 && spec_is_whitespace(s[0]) {
        spec_trim_start(s.skip(1))
    } else {
        s
    }
}

/// The text without its trailing white space.
pub open spec fn spec_trim_end(s: Seq<char>) -> Seq<char>
    decreases s.len(),
{
    if s.len() > 0 && spec_is_whitespace(s.last()) {
        spec_trim_end(s.drop_last())
    } else {
        s
    }
}

/// The text without the white space round it.
pub open spec fn spec_trim(s: Seq<char>) -> Seq<char> {
    spec_trim_end(spec_trim_start(s))
}

/// The character that separates piped paths.
pub open spec fn spec_separator(null_separator: bool) -> char {
    if null_separator {
        '\0'
    } else {
        '\n'
    }
}

/// The paths in a piped text: the pieces between separators, each trimmed,
/// without the pieces that are empty after trimming.
pub open spec fn spec_split_paths(s: Seq<char>, sep: char) -> Seq<Seq<char>>
    decreases s.len(),
{
    let e = spec_find(s, sep);
    let piece = spec_trim(s.take(e as int));
    let head = if piece.len() > 0 {
        seq![piece]
    } else {
        Seq::empty()
    };
    if e >= s.len() {
        head
    } else {
        head + spec_split_paths(s.skip(e as int + 1), sep)
    }
}

/// The root paths of a run: the arguments where there are any; else the
/// paths in the piped text where there is one; else none.
pub open spec fn spec_resolve_paths(
    args: Seq<Seq<char>>,
    piped: Option<Seq<char>>,
    null_separator: bool,
) -> Seq<Seq<char>> {
    if args.len() > 0 {
        args
    } else {
        match piped {
            Some(t) => spec_split_paths(t, spec_separator(null_separator)),
            None => Seq::empty(),
        }
    }
}

/// Whether a character is white space.
pub fn is_whitespace(c: char) -> (b: bool)
    ensures
        b == spec_is_whitespace(c),
{
    ('\u{9}' <= c && c <= '\u{d}') || c == ' ' || c == '\u{85}' || c == '\u{a0}' || c
        == '\u{1680}' || ('\u{2000}' <= c && c <= '\u{200a}') || c == '\u{2028}' || c
        == '\u{2029}' || c == '\u{202f}' || c == '\u{205f}' || c == '\u{3000}'
}

/// The characters `v[from..to]` without the white space round them.
pub fn trimmed_range(v: &Vec<char>, from: usize, to: usize) -> (out: String)
    requires
        from <= to <= v.len(),
    ensures
        out@ == spec_trim(v@.subrange(from as int, to as int)),
{
    let mut a: usize = from;
    while a < to && is_whitespace(v[a])
        invariant
            from <= a <= to <= v.len(),
            spec_trim_start(v@.subrange(from as int, to as int)) == spec_trim_start(
                v@.subrange(a as int, to as int),
            ),
        decreases to - a,
    {
        assert(v@.subrange(a as int, to as int).skip(1) =~= v@.subrange(a + 1, to as int));
        a += 1;
    }
    let mut b: usize = to;
    while a < b && is_whitespace(v[b - 1])
        invariant
            from <= a <= b <= to <= v.len(),
            spec_trim(v@.subrange(from as int, to as int)) == spec_trim_end(
                v@.subrange(a as int, b as int),
            ),
        decreases b - a,
    {
        assert(v@.subrange(a as int, b as int).drop_last() =~= v@.subrange(a as int, b - 1));
        b -= 1;
    }
    let mut out = String::new();
    push_range(&mut out, v, a, b);
    assert(Seq::<char>::empty() + v@.subrange(a as int, b as int) =~= v@.subrange(
        a as int,
        b as int,
    ));
    out
}

/// Splits a piped text into paths: the text is cut at line feeds, or at NUL
/// characters where `null_separator` is set; each piece is trimmed, and
/// pieces that are then empty are left out.
pub fn split_paths(input: &str, null_separator: bool) -> (out: Vec<String>)
    ensures
        spec_views(out@) == spec_split_paths(input@, spec_separator(null_separator)),
{
    let sep: char = if null_separator {
        '\0'
    } else {
        '\n'
    };
    let c = chars_of(input);
    let mut out: Vec<String> = Vec::new();
    let mut start: usize = 0;
    let mut i: usize = 0;
    assert(c@.skip(0) =~= c@);
    assert(spec_views(out@) + spec_split_paths(c@, sep) =~= spec_split_paths(c@, sep));
    while i < c.len()
        invariant
            start <= i <= c.len(),
            sep == spec_separator(null_separator),
            forall|k: int| start <= k < i ==> c@[k] != sep,
            spec_split_paths(c@, sep) == spec_views(out@) + spec_split_paths(
                c@.skip(start as int),
                sep,
            ),
        decreases c.len() - i,
    {
        if c[i] == sep {
            let piece = trimmed_range(&c, start, i);
            let ghost before = spec_views(out@);
            proof {
                let t = c@.skip(start as int);
                lemma_find(t, sep, (i - start) as nat);
                assert(t.take(i - start) =~= c@.subrange(start as int, i as int));
                assert(t.skip(i - start + 1) =~= c@.skip(i + 1));
            }
            if !piece.as_str().is_empty() {
                proof {
                    assert(spec_views(out@.push(piece)) =~= before.push(piece@));
                    assert(before.push(piece@) + spec_split_paths(c@.skip(i + 1), sep) =~= before
                        + (seq![piece@] + spec_split_paths(c@.skip(i + 1), sep)));
                }
                out.push(piece);
            } else {
                assert(before + (Seq::<Seq<char>>::empty() + spec_split_paths(c@.skip(i + 1), sep))
                    =~= before + spec_split_paths(c@.skip(i + 1), sep));
            }
            start = i + 1;
        }
        i += 1;
    }
    let piece = trimmed_range(&c, start, c.len());
    let ghost before = spec_views(out@);
    proof {
        let t = c@.skip(start as int);
        lemma_find(t, sep, (c.len() - start) as nat);
        assert(t.take(c.len() - start) =~= c@.subrange(start as int, c.len() as int));
    }
    if !piece.as_str().is_empty() {
        proof {
            assert(spec_views(out@.push(piece)) =~= before.push(piece@));
            assert(before.push(piece@) =~= before + seq![piece@]);
        }
        out.push(piece);
    } else {
        assert(before + Seq::<Seq<char>>::empty() =~= before);
    }
    out
}

/// Resolves the root paths of a run. Arguments, where there are any, are
/// taken as they are, in their order. Else `piped` is the text that was
/// piped in, or `None` where the input is a terminal: the text is split into
/// paths, and without a text there are no paths.
pub fn resolve_paths(args: Vec<String>, piped: Option<&str>, null_separator: bool) -> (out: Vec<
    String,
>)
    ensures
        spec_views(out@) == spec_resolve_paths(
            spec_views(args@),
            match piped {
                Some(t) => Some(t@),
                None => None,
            },
            null_separator,
        ),
        args@.len() > 0 ==> out@ == args@,
{
    if args.len() > 0 {
        return args;
    }
    match piped {
        Some(t) => split_paths(t, null_separator),
        None => {
            let out: Vec<String> = Vec::new();
            assert(spec_views(out@) =~= Seq::<Seq<char>>::empty());
            out
        },
    }
}

} // verus!
