//! Characters of a line: conversion between strings and character vectors,
//! white space, trimming, and the newline that may end a line.

use vstd::prelude::*;

verus! {

/// `String::push` appends one character to the end of the string.
pub assume_specification[ String::push ](s: &mut String, ch: char)
    ensures
        final(s)@ == old(s)@.push(ch),
;

/// White space in the sense of Unicode's `White_Space` property: what is
/// trimmed from the two ends of a line.
pub open spec fn is_whitespace(c: char) -> bool {
    let u = c as u32;
    ||| 0x09 <= u <= 0x0d
    ||| u == 0x20
    ||| u == 0x85
    ||| u == 0xa0
    ||| u == 0x1680
    ||| 0x2000 <= u <= 0x200a
    ||| u == 0x2028
    ||| u == 0x2029
    ||| u == 0x202f
    ||| u == 0x205f
    ||| u == 0x3000
}

/// ASCII white space: space, tab, line feed, form feed and carriage return.
/// This is what separates the words of a line.
pub open spec fn is_ascii_whitespace(c: char) -> bool {
    c == ' ' || c == '\t' || c == '\n' || c == '\x0c' || c == '\r'
}

/// A run of `n` spaces.
pub open spec fn spaces(n: int) -> Seq<char> {
    Seq::new(
        if n >= 0 {
            n as nat
        } else {
            0
        },
        |i: int| ' ',
    )
}

/// Whether the line ends in a newline.
pub open spec fn ends_with_newline(s: Seq<char>) -> bool {
    s.len() > 0 && s.last() == '\n'
}

/// The line without the newline that may end it.
pub open spec fn line_content(s: Seq<char>) -> Seq<char> {
    if ends_with_newline(s) {
        s.drop_last()
    } else {
        s
    }
}

/// The newline that ends the line, or nothing.
pub open spec fn line_ending(s: Seq<char>) -> Seq<char> {
    if ends_with_newline(s) {
        seq!['\n']
    } else {
        Seq::empty()
    }
}

/// `s` without the white space that it starts with.
pub open spec fn trim_start(s: Seq<char>) -> Seq<char>
    decreases s.len(),
{
    if s.len() > 0 && is_whitespace(s.first()) {
        trim_start(s.drop_first())
    } else {
        s
    }
}

/// `s` without the white space that it ends with.
pub open spec fn trim_end(s: Seq<char>) -> Seq<char>
    decreases s.len(),
{
    if s.len() > 0 && is_whitespace(s.last()) {
        trim_end(s.drop_last())
    } else {
        s
    }
}

/// `s` without the white space at either end.
pub open spec fn trimmed(s: Seq<char>) -> Seq<char> {
    trim_end(trim_start(s))
}

/// Trimming never lengthens.
pub proof fn lemma_trimmed_len(s: Seq<char>)
    ensures
        trim_start(s).len() <= s.len(),
        trim_end(s).len() <= s.len(),
        trimmed(s).len() <= s.len(),
    decreases s.len(),
{
    if s.len() > 0 {
        lemma_trimmed_len(s.drop_first());
        lemma_trimmed_len(s.drop_last());
    }
    lemma_trim_end_len(trim_start(s));
}

proof fn lemma_trim_end_len(s: Seq<char>)
    ensures
        trim_end(s).len() <= s.len(),
    decreases s.len(),
{
    if s.len() > 0 {
        lemma_trim_end_len(s.drop_last());
    }
}

/// A line that neither starts nor ends with white space is left as it is.
pub proof fn lemma_trimmed_fixed(s: Seq<char>)
    requires
        s.len() == 0 || (!is_whitespace(s.first()) && !is_whitespace(s.last())),
    ensures
        trimmed(s) == s,
{
}

/// Whether `c` is white space.
pub fn whitespace(c: char) -> (out: bool)
    ensures
        out == is_whitespace(c),
{
    let u: u32 = c as u32;
    (0x09 <= u && u <= 0x0d) || u == 0x20 || u == 0x85 || u == 0xa0 || u == 0x1680 || (0x2000 <= u
        && u <= 0x200a) || u == 0x2028 || u == 0x2029 || u == 0x202f || u == 0x205f || u == 0x3000
}

/// Whether `c` is ASCII white space.
pub fn ascii_whitespace(c: char) -> (out: bool)
    ensures
        out == is_ascii_whitespace(c),
{
    c == ' ' || c == '\t' || c == '\n' || c == '\x0c' || c == '\r'
}

/// The characters of `s`, in order.
pub fn chars_of(s: &str) -> (out: Vec<char>)
    ensures
        out@ == s@,
{
    let mut out: Vec<char> = Vec::new();
    for c in it: s.chars()
        invariant
            it.seq() == s@,
            out@ == s@.take(it.index()),
    {
        out.push(c);
    }
    out
}

/// The string that holds exactly the characters of `chars`, in order.
pub fn string_of(chars: &Vec<char>) -> (out: String)
    ensures
        out@ == chars@,
{
    let mut out = String::new();
    let mut i: usize = 0;
    while i < chars.len()
        invariant
            i <= chars.len(),
            out@ == chars@.take(i as int),
        decreases chars.len() - i,
    {
        out.push(chars[i]);
        i += 1;
    }
    out
}

/// Where the line's content ends: its length, less one for a final newline.
pub fn content_end(line: &Vec<char>) -> (end: usize)
    ensures
        end <= line.len(),
        line@.take(end as int) == line_content(line@),
        (end < line.len()) == ends_with_newline(line@),
{
    let n = line.len();
    if n > 0 && line[n - 1] == '\n' {
        n - 1
    } else {
        n
    }
}

/// The bounds of `line[..end]` without the white space at either end.
pub fn trimmed_bounds(line: &Vec<char>, end: usize) -> (bounds: (usize, usize))
    requires
        end <= line.len(),
    ensures
        bounds.0 <= bounds.1 <= end,
        line@.subrange(bounds.0 as int, bounds.1 as int) == trimmed(line@.take(end as int)),
{
    let ghost s = line@.take(end as int);
    let mut lo: usize = 0;
    proof {
        assert(s.subrange(0, end as int) == s);
    }
    while lo < end && whitespace(line[lo])
        invariant
            lo <= end <= line.len(),
            s == line@.take(end as int),
            trim_start(s) == trim_start(s.subrange(lo as int, end as int)),
        decreases end - lo,
    {
        proof {
            let t = s.subrange(lo as int, end as int);
            assert(t.drop_first() == s.subrange(lo as int + 1, end as int));
        }
        lo += 1;
    }
    let mut hi: usize = end;
    while hi > lo && whitespace(line[hi - 1])
        invariant
            lo <= hi <= end <= line.len(),
            s == line@.take(end as int),
            trimmed(s) == trim_end(s.subrange(lo as int, hi as int)),
        decreases hi - lo,
    {
        proof {
            let t = s.subrange(lo as int, hi as int);
            assert(t.drop_last() == s.subrange(lo as int, hi as int - 1));
        }
        hi -= 1;
    }
    proof {
        assert(s.subrange(lo as int, hi as int) == line@.subrange(lo as int, hi as int));
    }
    (lo, hi)
}

/// Appends `n` spaces to `out`.
pub fn push_spaces(out: &mut Vec<char>, n: usize)
    ensures
        final(out)@ == old(out)@ + spaces(n as int),
{
    let mut i: usize = 0;
    while i < n
        invariant
            i <= n,
            out@ == old(out)@ + spaces(i as int),
        decreases n - i,
    {
        out.push(' ');
        i += 1;
        proof {
            assert(spaces(i as int) == spaces(i as int - 1).push(' '));
        }
    }
}

/// Appends the characters `from[lo..hi]` to `out`.
pub fn push_range(out: &mut Vec<char>, from: &Vec<char>, lo: usize, hi: usize)
    requires
        lo <= hi <= from.len(),
    ensures
        final(out)@ == old(out)@ + from@.subrange(lo as int, hi as int),
{
    let mut i: usize = lo;
    while i < hi
        invariant
            lo <= i <= hi <= from.len(),
            out@ == old(out)@ + from@.subrange(lo as int, i as int),
        decreases hi - i,
    {
        out.push(from[i]);
        i += 1;
        proof {
            assert(from@.subrange(lo as int, i as int) == from@.subrange(lo as int, i as int - 1).push(
                from@[i as int - 1],
            ));
        }
    }
}

} // verus!
