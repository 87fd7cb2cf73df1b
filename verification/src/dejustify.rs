//! Undoing justification: runs of spaces shrink to one space, and the space
//! after a sentence may then grow to a chosen number of spaces.
//!
//! This does not give back the line as it was before it was justified: what
//! spacing the line had then is lost, and only normal spacing comes back.

use crate::text::{push_spaces, spaces};
use vstd::prelude::*;

verus! {

/// The marks that end a sentence.
pub open spec fn is_sentence_end(c: char) -> bool {
    c == '.' || c == '?' || c == '!'
}

/// `s` with every run of two or more spaces replaced by one space: a space
/// that follows a space is dropped, and everything else is kept.
pub open spec fn collapsed(s: Seq<char>) -> Seq<char>
    decreases s.len(),
{
    if s.len() == 0 {
        s
    } else if s.last() == ' ' && s.len() >= 2 && s[s.len() - 2] == ' ' {
        collapsed(s.drop_last())
    } else {
        collapsed(s.drop_last()).push(s.last())
    }
}

/// `s` with every space that follows a sentence-ending mark replaced by `n`
/// spaces.
pub open spec fn expanded(s: Seq<char>, n: int) -> Seq<char>
    decreases s.len(),
{
    if s.len() == 0 {
        s
    } else if s.last() == ' ' && s.len() >= 2 && is_sentence_end(s[s.len() - 2]) {
        expanded(s.drop_last(), n) + spaces(n)
    } else {
        expanded(s.drop_last(), n).push(s.last())
    }
}

/// The line with normal spacing: runs of spaces collapsed, and then, where
/// `n` is more than one, `n` spaces after each sentence-ending mark that a
/// space follows.
pub open spec fn dejustified(s: Seq<char>, n: int) -> Seq<char> {
    if n > 1 {
        expanded(collapsed(s), n)
    } else {
        collapsed(s)
    }
}

/// Whether no space in `s` follows a space.
pub open spec fn single_spaced(s: Seq<char>) -> bool {
    forall|i: int| 0 < i < s.len() ==> !(s[i - 1] == ' ' && #[trigger] s[i] == ' ')
}

/// Collapsing keeps the last character of a line.
pub proof fn lemma_collapsed_last(s: Seq<char>)
    requires
        s.len() > 0,
    ensures
        collapsed(s).len() > 0,
        collapsed(s).last() == s.last(),
    decreases s.len(),
{
    if s.last() == ' ' && s.len() >= 2 && s[s.len() - 2] == ' ' {
        lemma_collapsed_last(s.drop_last());
    }
}

/// After collapsing, no space follows a space.
pub proof fn lemma_collapsed_single_spaced(s: Seq<char>)
    ensures
        single_spaced(collapsed(s)),
    decreases s.len(),
{
    if s.len() > 0 {
        let p = s.drop_last();
        lemma_collapsed_single_spaced(p);
        if !(s.last() == ' ' && s.len() >= 2 && s[s.len() - 2] == ' ') {
            if p.len() > 0 {
                lemma_collapsed_last(p);
            }
            let out = collapsed(s);
            assert forall|i: int| 0 < i < out.len() implies !(out[i - 1] == ' ' && #[trigger] out[i]
                == ' ') by {
                if i < out.len() - 1 {
                    assert(out[i] == collapsed(p)[i]);
                    assert(out[i - 1] == collapsed(p)[i - 1]);
                }
            }
        }
    }
}

/// A line in which no space follows a space is left as it is.
pub proof fn lemma_collapsed_fixed(s: Seq<char>)
    requires
        single_spaced(s),
    ensures
        collapsed(s) == s,
    decreases s.len(),
{
    if s.len() > 0 {
        let p = s.drop_last();
        assert forall|i: int| 0 < i < p.len() implies !(p[i - 1] == ' ' && #[trigger] p[i]
            == ' ') by {
            assert(p[i] == s[i]);
        }
        lemma_collapsed_fixed(p);
        if s.len() >= 2 {
            assert(!(s[s.len() - 2] == ' ' && s[s.len() - 1] == ' '));
        }
        assert(p.push(s.last()) == s);
    }
}

/// Expanding to one space or more keeps the last character of a line.
pub proof fn lemma_expanded_last(s: Seq<char>, n: int)
    requires
        s.len() > 0,
        n >= 1,
    ensures
        expanded(s, n).len() > 0,
        expanded(s, n).last() == s.last(),
{
    if s.last() == ' ' && s.len() >= 2 && is_sentence_end(s[s.len() - 2]) {
        assert(spaces(n).last() == ' ');
    }
}

proof fn lemma_collapsed_run(s: Seq<char>, n: int)
    requires
        s.len() > 0,
        s.last() != ' ',
        n >= 1,
    ensures
        collapsed(s + spaces(n)) == collapsed(s).push(' '),
    decreases n,
{
    let t = s + spaces(n);
    if n == 1 {
        assert(t.drop_last() == s);
    } else {
        lemma_collapsed_run(s, n - 1);
        assert(t.drop_last() == s + spaces(n - 1));
        assert(t[t.len() - 2] == ' ');
    }
}

/// Collapsing takes back an expansion: on a line in which no space follows
/// a space, expanding and then collapsing gives the line again.
pub proof fn lemma_collapsed_expanded(s: Seq<char>, n: int)
    requires
        single_spaced(s),
        n >= 1,
    ensures
        collapsed(expanded(s, n)) == s,
    decreases s.len(),
{
    if s.len() > 0 {
        let p = s.drop_last();
        let c = s.last();
        assert forall|i: int| 0 < i < p.len() implies !(p[i - 1] == ' ' && #[trigger] p[i]
            == ' ') by {
            assert(p[i] == s[i]);
        }
        lemma_collapsed_expanded(p, n);
        let e = expanded(p, n);
        if c == ' ' && s.len() >= 2 && is_sentence_end(s[s.len() - 2]) {
            lemma_expanded_last(p, n);
            lemma_collapsed_run(e, n);
        } else {
            let t = e.push(c);
            assert(t.drop_last() == e);
            if p.len() > 0 {
                lemma_expanded_last(p, n);
                assert(t[t.len() - 2] == p.last());
                assert(!(s[s.len() - 2] == ' ' && s[s.len() - 1] == ' '));
            }
        }
        assert(p.push(c) == s);
    }
}

/// Doing it twice changes nothing more: a line with normal spacing is given
/// back as it is, whatever the number of spaces after a sentence.
pub proof fn lemma_dejustified_idempotent(s: Seq<char>, n: int)
    ensures
        dejustified(dejustified(s, n), n) == dejustified(s, n),
{
    lemma_collapsed_single_spaced(s);
    if n > 1 {
        lemma_collapsed_expanded(collapsed(s), n);
    } else {
        lemma_collapsed_fixed(collapsed(s));
    }
}

/// Whether `c` ends a sentence.
pub fn sentence_end(c: char) -> (out: bool)
    ensures
        out == is_sentence_end(c),
{
    c == '.' || c == '?' || c == '!'
}

/// Collapses every run of spaces in `line` to one space.
pub fn collapse_chars(line: &Vec<char>) -> (out: Vec<char>)
    ensures
        out@ == collapsed(line@),
{
    let mut out: Vec<char> = Vec::new();
    let mut i: usize = 0;
    while i < line.len()
        invariant
            i <= line.len(),
            out@ == collapsed(line@.take(i as int)),
        decreases line.len() - i,
    {
        proof {
            let t = line@.take(i + 1);
            assert(t.drop_last() == line@.take(i as int));
        }
        let c = line[i];
        if !(c == ' ' && i > 0 && line[i - 1] == ' ') {
            out.push(c);
        }
        i += 1;
    }
    proof {
        assert(line@.take(line@.len() as int) == line@);
    }
    out
}

/// Puts `n` spaces in place of every space in `line` that follows a
/// sentence-ending mark.
pub fn expand_chars(line: &Vec<char>, n: usize) -> (out: Vec<char>)
    ensures
        out@ == expanded(line@, n as int),
{
    let mut out: Vec<char> = Vec::new();
    let mut i: usize = 0;
    while i < line.len()
        invariant
            i <= line.len(),
            out@ == expanded(line@.take(i as int), n as int),
        decreases line.len() - i,
    {
        proof {
            let t = line@.take(i + 1);
            assert(t.drop_last() == line@.take(i as int));
        }
        let c = line[i];
        if c == ' ' && i > 0 && sentence_end(line[i - 1]) {
            push_spaces(&mut out, n);
        } else {
            out.push(c);
        }
        i += 1;
    }
    proof {
        assert(line@.take(line@.len() as int) == line@);
    }
    out
}

/// Gives `line` normal spacing, with `spaces_after_punctuation` spaces after
/// a sentence where that is more than one.
pub fn dejustify_chars(line: &Vec<char>, spaces_after_punctuation: usize) -> (out: Vec<char>)
    ensures
        out@ == dejustified(line@, spaces_after_punctuation as int),
{
    let single = collapse_chars(line);
    if spaces_after_punctuation > 1 {
        expand_chars(&single, spaces_after_punctuation)
    } else {
        single
    }
}

} // verus!
