//! The line-numbering transform: content is cut into lines, and each line is
//! prefixed with its index, right-justified to the width of the line count.

use crate::text::{chars_of, lemma_find, push_range, spec_find, spec_views};
use vstd::prelude::*;

verus! {

/// The decimal digit that stands for `d`, for `d` below ten.
pub open spec fn spec_digit(d: nat) -> char {
    if d == 0 {
        '0'
    } else if d == 1 {
        '1'
    } else if d == 2 {
        '2'
    } else if d == 3 {
        '3'
    } else if d == 4 {
        '4'
    } else if d == 5 {
        '5'
    } else if d == 6 {
        '6'
    } else if d == 7 {
        '7'
    } else if d == 8 {
        '8'
    } else {
        '9'
    }
}

/// The decimal numeral of `n`, without leading zeros; `0` is written "0".
pub open spec fn spec_decimal(n: nat) -> Seq<char>
    decreases n,
{
    if n < 10 {
        seq![spec_digit(n)]
    } else {
        spec_decimal(n / 10).push(spec_digit(n % 10))
    }
}

/// `line` without one trailing carriage return, if it has one.
pub open spec fn spec_strip_cr(line: Seq<char>) -> Seq<char> {
    if line.len() > 0 && line.last() == '\r' {
        line.drop_last()
    } else {
        line
    }
}

/// The lines of `s`. A line ends at a line feed; a carriage return directly
/// before that line feed belongs to the line ending too. The last line needs
/// no line ending, and an empty text has no lines.
pub open spec fn spec_lines(s: Seq<char>) -> Seq<Seq<char>>
    decreases s.len(),
{
    if s.len() == 0 {
        Seq::empty()
    } else {
        let e = spec_find(s, '\n');
        if e >= s.len() {
            seq![s]
        } else {
            seq![spec_strip_cr(s.take(e as int))] + spec_lines(s.skip(e as int + 1))
        }
    }
}

/// `n` spaces.
pub open spec fn spec_pad(n: nat) -> Seq<char> {
    Seq::new(n, |i: int| ' ')
}

/// One numbered line: the index right-justified in `width` columns, two
/// spaces, and the line's text. An index wider than `width` is not cut.
pub open spec fn spec_numbered_line(index: nat, width: nat, line: Seq<char>) -> Seq<char> {
    let numeral = spec_decimal(index);
    let fill: nat = if width > numeral.len() {
        (width - numeral.len()) as nat
    } else {
        0
    };
    spec_pad(fill) + numeral + seq![' ', ' '] + line
}

/// Every line with its number, counted from one; the width is that of the
/// numeral of the line count.
pub open spec fn spec_number_lines(lines: Seq<Seq<char>>) -> Seq<Seq<char>> {
    Seq::new(
        lines.len(),
        |i: int| spec_numbered_line((i + 1) as nat, spec_decimal(lines.len()).len(), lines[i]),
    )
}

/// The lines joined by `sep`, with no separator after the last.
pub open spec fn spec_join(lines: Seq<Seq<char>>, sep: char) -> Seq<char>
    decreases lines.len(),
{
    if lines.len() == 0 {
        Seq::empty()
    } else if lines.len() == 1 {
        lines[0]
    } else {
        spec_join(lines.drop_last(), sep).push(sep) + lines.last()
    }
}

/// The content with every line numbered.
pub open spec fn spec_add_line_numbers(content: Seq<char>) -> Seq<char> {
    spec_join(spec_number_lines(spec_lines(content)), '\n')
}

/// The decimal digit of `d`.
pub fn digit(d: usize) -> (c: char)
    requires
        d < 10,
    ensures
        c == spec_digit(d as nat),
{
    match d {
        0 => '0',
        1 => '1',
        2 => '2',
        3 => '3',
        4 => '4',
        5 => '5',
        6 => '6',
        7 => '7',
        8 => '8',
        _ => '9',
    }
}

/// The decimal numeral of `n`.
pub fn decimal(n: usize) -> (v: Vec<char>)
    ensures
        v@ == spec_decimal(n as nat),
    decreases n,
{
    let mut v: Vec<char> = if n >= 10 {
        decimal(n / 10)
    } else {
        Vec::new()
    };
    v.push(digit(n % 10));
    assert(v@ =~= spec_decimal(n as nat));
    v
}

/// Cuts `content` into its lines.
pub fn lines(content: &str) -> (out: Vec<String>)
    ensures
        spec_views(out@) == spec_lines(content@),
{
    let c = chars_of(content);
    let mut out: Vec<String> = Vec::new();
    let mut start: usize = 0;
    let mut i: usize = 0;
    assert(c@.skip(0) =~= c@);
    assert(spec_views(out@) + spec_lines(c@) =~= spec_lines(c@));
    while i < c.len()
        invariant
            start <= i <= c.len(),
            forall|k: int| start <= k < i ==> c@[k] != '\n',
            spec_lines(c@) == spec_views(out@) + spec_lines(c@.skip(start as int)),
        decreases c.len() - i,
    {
        if c[i] == '\n' {
            let end: usize = if i > start && c[i - 1] == '\r' {
                i - 1
            } else {
                i
            };
            let mut line = String::new();
            push_range(&mut line, &c, start, end);
            proof {
                let t = c@.skip(start as int);
                lemma_find(t, '\n', (i - start) as nat);
                assert(t.take(i - start) =~= c@.subrange(start as int, i as int));
                assert(spec_strip_cr(c@.subrange(start as int, i as int)) =~= c@.subrange(
                    start as int,
                    end as int,
                ));
                assert(t.skip(i - start + 1) =~= c@.skip(i + 1));
                assert(line@ =~= c@.subrange(start as int, end as int));
                assert(spec_views(out@.push(line)) =~= spec_views(out@).push(line@));
                assert(spec_views(out@).push(line@) + spec_lines(c@.skip(i + 1)) =~= spec_views(
                    out@,
                ) + (seq![line@] + spec_lines(c@.skip(i + 1))));
            }
            out.push(line);
            start = i + 1;
        }
        i += 1;
    }
    if start < c.len() {
        let mut line = String::new();
        push_range(&mut line, &c, start, c.len());
        proof {
            let t = c@.skip(start as int);
            lemma_find(t, '\n', (c.len() - start) as nat);
            assert(t =~= c@.subrange(start as int, c.len() as int));
            assert(line@ =~= t);
            assert(spec_views(out@.push(line)) =~= spec_views(out@).push(line@));
            assert(spec_views(out@).push(line@) =~= spec_views(out@) + seq![t]);
        }
        out.push(line);
    } else {
        assert(spec_views(out@) + Seq::<Seq<char>>::empty() =~= spec_views(out@));
    }
    out
}

/// Adds `n` spaces at the end of `out`.
pub fn push_pad(out: &mut String, n: usize)
    ensures
        final(out)@ == old(out)@ + spec_pad(n as nat),
{
    let mut i: usize = 0;
    assert(out@ + spec_pad(0) =~= out@);
    while i < n
        invariant
            i <= n,
            out@ == old(out)@ + spec_pad(i as nat),
        decreases n - i,
    {
        out.push(' ');
        i += 1;
        assert(spec_pad(i as nat) =~= spec_pad((i - 1) as nat).push(' '));
    }
}

/// Adds one numbered line at the end of `out`.
pub fn push_numbered_line(out: &mut String, index: usize, width: usize, line: &str)
    ensures
        final(out)@ == old(out)@ + spec_numbered_line(index as nat, width as nat, line@),
{
    let numeral = decimal(index);
    let fill: usize = if width > numeral.len() {
        width - numeral.len()
    } else {
        0
    };
    push_pad(out, fill);
    push_range(out, &numeral, 0, numeral.len());
    out.push(' ');
    out.push(' ');
    out.append(line);
    proof {
        assert(numeral@.subrange(0, numeral.len() as int) =~= numeral@);
        assert(out@ =~= old(out)@ + spec_numbered_line(index as nat, width as nat, line@));
    }
}

/// Numbers the lines of `content`: each line is prefixed with its index,
/// counted from one and right-justified to the width of the line count, and
/// two spaces; the lines are joined by line feeds.
pub fn add_line_numbers(content: &str) -> (out: String)
    ensures
        out@ == spec_add_line_numbers(content@),
{
    let all = lines(content);
    let n: usize = all.len();
    let width: usize = decimal(n).len();
    let ghost numbered = spec_number_lines(spec_lines(content@));
    let mut out = String::new();
    let mut i: usize = 0;
    assert(numbered.take(0) =~= Seq::<Seq<char>>::empty());
    while i < n
        invariant
            i <= n,
            n == all.len(),
            width == spec_decimal(n as nat).len(),
            spec_views(all@) == spec_lines(content@),
            numbered == spec_number_lines(spec_lines(content@)),
            out@ == spec_join(numbered.take(i as int), '\n'),
        decreases n - i,
    {
        if i > 0 {
            out.push('\n');
        }
        push_numbered_line(&mut out, i + 1, width, all[i].as_str());
        proof {
            let done = numbered.take(i + 1);
            assert(spec_views(all@)[i as int] == all@[i as int]@);
            assert(done.drop_last() =~= numbered.take(i as int));
            assert(done.last() == numbered[i as int]);
            if i == 0 {
                assert(out@ =~= done[0]);
            } else {
                assert(out@ =~= spec_join(done.drop_last(), '\n').push('\n') + done.last());
            }
        }
        i += 1;
    }
    assert(numbered.take(n as int) =~= numbered);
    out
}

/// Whether a text holds no line feed.
pub open spec fn spec_line_feed_free(s: Seq<char>) -> bool {
    forall|j: int| 0 <= j < s.len() ==> #[trigger] s[j] != '\n'
}

/// The first `c` of a text lies within it, nothing before it is `c`, and
/// where it lies before the end, `c` stands there.
pub proof fn lemma_find_bounds(s: Seq<char>, c: char)
    ensures
        spec_find(s, c) <= s.len(),
        forall|j: int| 0 <= j < spec_find(s, c) ==> #[trigger] s[j] != c,
        spec_find(s, c) < s.len() ==> s[spec_find(s, c) as int] == c,
    decreases s.len(),
{
    if !(s.len() == 0 || s[0] == c) {
        lemma_find_bounds(s.skip(1), c);
        assert forall|j: int| 0 <= j < spec_find(s, c) implies #[trigger] s[j] != c by {
            if j > 0 {
                assert(s.skip(1)[j - 1] == s[j]);
            }
        }
    }
}

/// No line of a text holds a line feed.
pub proof fn lemma_lines_line_feed_free(s: Seq<char>)
    ensures
        forall|i: int|
            0 <= i < spec_lines(s).len() ==> spec_line_feed_free(#[trigger] spec_lines(s)[i]),
    decreases s.len(),
{
    if s.len() > 0 {
        let e = spec_find(s, '\n');
        lemma_find_bounds(s, '\n');
        if e < s.len() {
            let rest = spec_lines(s.skip(e as int + 1));
            lemma_lines_line_feed_free(s.skip(e as int + 1));
            assert(spec_line_feed_free(spec_strip_cr(s.take(e as int))));
            assert forall|i: int| 0 <= i < spec_lines(s).len() implies spec_line_feed_free(
                #[trigger] spec_lines(s)[i],
            ) by {
                if i > 0 {
                    assert(spec_lines(s)[i] == rest[i - 1]);
                }
            }
        } else {
            assert(spec_line_feed_free(s));
        }
    }
}

/// A numeral has at least one digit and holds no line feed.
pub proof fn lemma_decimal_shape(n: nat)
    ensures
        spec_decimal(n).len() >= 1,
        spec_line_feed_free(spec_decimal(n)),
    decreases n,
{
    if n >= 10 {
        lemma_decimal_shape(n / 10);
    }
}

/// A greater number has no shorter numeral.
pub proof fn lemma_decimal_len_monotonic(a: nat, b: nat)
    requires
        a <= b,
    ensures
        spec_decimal(a).len() <= spec_decimal(b).len(),
    decreases b,
{
    lemma_decimal_shape(b);
    if a >= 10 {
        lemma_decimal_len_monotonic(a / 10, b / 10);
    }
}

/// A text without a line feed that is not empty is one line.
pub proof fn lemma_lines_single(t: Seq<char>)
    requires
        t.len() > 0,
        spec_line_feed_free(t),
    ensures
        spec_lines(t) == seq![t],
{
    lemma_find(t, '\n', t.len());
}

/// A text without a line feed, a line feed and a rest: the first line is
/// the text without a trailing carriage return, the other lines are the
/// lines of the rest.
pub proof fn lemma_lines_cons(t: Seq<char>, rest: Seq<char>)
    requires
        spec_line_feed_free(t),
    ensures
        spec_lines(t.push('\n') + rest) == seq![spec_strip_cr(t)] + spec_lines(rest),
{
    let s = t.push('\n') + rest;
    assert forall|j: int| 0 <= j < t.len() implies s[j] != '\n' by {
        assert(s[j] == t[j]);
    }
    lemma_find(s, '\n', t.len());
    assert(s.take(t.len() as int) =~= t);
    assert(s.skip(t.len() as int + 1) =~= rest);
}

/// Joining two or more lines: the first line, the separator, and the other
/// lines joined.
pub proof fn lemma_join_first(lines: Seq<Seq<char>>, sep: char)
    requires
        lines.len() >= 2,
    ensures
        spec_join(lines, sep) == lines[0].push(sep) + spec_join(lines.skip(1), sep),
    decreases lines.len(),
{
    let front = lines.drop_last();
    let tail = lines.skip(1);
    assert(tail.last() == lines.last());
    if front.len() >= 2 {
        lemma_join_first(front, sep);
        assert(tail.drop_last() =~= front.skip(1));
        assert((lines[0].push(sep) + spec_join(front.skip(1), sep)).push(sep) + lines.last()
            =~= lines[0].push(sep) + (spec_join(front.skip(1), sep).push(sep) + lines.last()));
    } else {
        assert(spec_join(front, sep) == lines[0]);
        assert(spec_join(tail, sep) == lines.last());
    }
}

/// Lines that are not empty and hold no line feed, joined by line feeds,
/// make a text with as many lines.
pub proof fn lemma_lines_of_join(lines: Seq<Seq<char>>)
    requires
        forall|i: int|
            0 <= i < lines.len() ==> (#[trigger] lines[i]).len() > 0 && spec_line_feed_free(
                lines[i],
            ),
    ensures
        spec_lines(spec_join(lines, '\n')).len() == lines.len(),
    decreases lines.len(),
{
    if lines.len() == 1 {
        lemma_lines_single(lines[0]);
    } else if lines.len() >= 2 {
        let tail = lines.skip(1);
        assert forall|i: int| 0 <= i < tail.len() implies (#[trigger] tail[i]).len() > 0
            && spec_line_feed_free(tail[i]) by {
            assert(tail[i] == lines[i + 1]);
        }
        lemma_join_first(lines, '\n');
        lemma_lines_of_join(tail);
        lemma_lines_cons(lines[0], spec_join(tail, '\n'));
    }
}

/// Every numbered line is its index, right-justified to the width of the
/// numeral of the line count, two spaces and the line; the indices count
/// from one in the order of the lines.
pub proof fn lemma_numbered_line(content: Seq<char>, i: int)
    requires
        0 <= i < spec_lines(content).len(),
    ensures
        spec_number_lines(spec_lines(content)).len() == spec_lines(content).len(),
        spec_decimal((i + 1) as nat).len() <= spec_decimal(spec_lines(content).len()).len(),
        spec_number_lines(spec_lines(content))[i] == spec_pad(
            (spec_decimal(spec_lines(content).len()).len() - spec_decimal((i + 1) as nat).len()) as nat,
        ) + spec_decimal((i + 1) as nat) + seq![' ', ' '] + spec_lines(content)[i],
{
    lemma_decimal_len_monotonic((i + 1) as nat, spec_lines(content).len());
}

/// Ten to the power of `k`.
pub open spec fn spec_pow10(k: nat) -> nat
    decreases k,
{
    if k == 0 {
        1
    } else {
        10 * spec_pow10((k - 1) as nat)
    }
}

/// A numeral of `k` digits stands for a number below ten to the `k`, and,
/// where it has more than one digit, for one that is at least ten to the
/// `k - 1`: one digit up to nine, two from ten to ninety-nine, and so on.
pub proof fn lemma_decimal_len_bounds(n: nat)
    ensures
        spec_decimal(n).len() >= 1,
        n < spec_pow10(spec_decimal(n).len()),
        n >= 10 ==> n >= spec_pow10((spec_decimal(n).len() - 1) as nat),
    decreases n,
{
    reveal_with_fuel(spec_pow10, 3);
    if n >= 10 {
        lemma_decimal_len_bounds(n / 10);
    }
}

/// Cutting the index off a numbered line gives the line back: the prefix
/// is as wide as the numeral of the line count, and two more.
pub proof fn lemma_numbered_line_strips(content: Seq<char>, i: int)
    requires
        0 <= i < spec_lines(content).len(),
    ensures
        spec_number_lines(spec_lines(content))[i].len() == spec_decimal(
            spec_lines(content).len(),
        ).len() + 2 + spec_lines(content)[i].len(),
        spec_number_lines(spec_lines(content))[i].skip(
            spec_decimal(spec_lines(content).len()).len() as int + 2,
        ) == spec_lines(content)[i],
{
    lemma_numbered_line(content, i);
    let width = spec_decimal(spec_lines(content).len()).len();
    assert(spec_number_lines(spec_lines(content))[i].skip(width as int + 2) =~= spec_lines(content)[i]);
}

/// Numbering keeps the number of lines.
pub proof fn lemma_numbering_keeps_line_count(content: Seq<char>)
    ensures
        spec_lines(spec_add_line_numbers(content)).len() == spec_lines(content).len(),
{
    let lines = spec_lines(content);
    let numbered = spec_number_lines(lines);
    lemma_lines_line_feed_free(content);
    assert forall|i: int| 0 <= i < numbered.len() implies (#[trigger] numbered[i]).len() > 0
        && spec_line_feed_free(numbered[i]) by {
        let d = spec_decimal((i + 1) as nat);
        lemma_decimal_shape((i + 1) as nat);
        lemma_numbered_line(content, i);
        let fill = (spec_decimal(lines.len()).len() - d.len()) as nat;
        let line = numbered[i];
        assert(spec_line_feed_free(lines[i]));
        assert forall|j: int| 0 <= j < line.len() implies #[trigger] line[j] != '\n' by {
            if j < fill {
            } else if j < fill + d.len() {
                assert(line[j] == d[j - fill]);
            } else if j < fill + d.len() + 2 {
            } else {
                assert(line[j] == lines[i][j - fill - d.len() - 2]);
            }
        }
    }
    lemma_lines_of_join(numbered);
}

} // verus!
