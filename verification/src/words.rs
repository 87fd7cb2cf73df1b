//! The words of a line: its maximal runs of characters that are not ASCII
//! white space.

use crate::text::{ascii_whitespace, is_ascii_whitespace, spaces};
use vstd::prelude::*;

verus! {

/// The words of `s`, in order.
///
/// Read from the end: white space adds nothing; any other character
/// lengthens the last word when the character before it belongs to a word,
/// and starts a new word otherwise.
pub open spec fn words(s: Seq<char>) -> Seq<Seq<char>>
    decreases s.len(),
{
    if s.len() == 0 {
        Seq::empty()
    } else {
        let before = words(s.drop_last());
        let c = s.last();
        if is_ascii_whitespace(c) {
            before
        } else if s.len() >= 2 && !is_ascii_whitespace(s[s.len() - 2]) {
            before.drop_last().push(before.last().push(c))
        } else {
            before.push(seq![c])
        }
    }
}

/// The number of characters in all of `ws` together.
pub open spec fn total_chars(ws: Seq<Seq<char>>) -> int
    decreases ws.len(),
{
    if ws.len() == 0 {
        0
    } else {
        total_chars(ws.drop_last()) + ws.last().len()
    }
}

/// The character sequences that a vector of words holds.
pub open spec fn word_views(ws: Seq<Vec<char>>) -> Seq<Seq<char>> {
    Seq::new(ws.len(), |i: int| ws[i]@)
}

/// A line that ends inside a word has a last word, and that word ends as
/// the line does.
pub proof fn lemma_words_last(s: Seq<char>)
    requires
        s.len() > 0,
        !is_ascii_whitespace(s.last()),
    ensures
        words(s).len() > 0,
        words(s).last().len() > 0,
        words(s).last().last() == s.last(),
    decreases s.len(),
{
    if s.len() >= 2 && !is_ascii_whitespace(s[s.len() - 2]) {
        lemma_words_last(s.drop_last());
    }
}

/// Whether `w` can stand as a word: it is not empty and holds no ASCII
/// white space.
pub open spec fn is_word(w: Seq<char>) -> bool {
    w.len() > 0 && forall|j: int| 0 <= j < w.len() ==> !is_ascii_whitespace(#[trigger] w[j])
}

/// No word of a line is empty, and none holds ASCII white space.
pub proof fn lemma_words_are_words(s: Seq<char>)
    ensures
        forall|i: int| 0 <= i < words(s).len() ==> is_word(#[trigger] words(s)[i]),
    decreases s.len(),
{
    if s.len() > 0 {
        let p = s.drop_last();
        let before = words(p);
        let c = s.last();
        lemma_words_are_words(p);
        if is_ascii_whitespace(c) {
        } else if s.len() >= 2 && !is_ascii_whitespace(s[s.len() - 2]) {
            lemma_words_last(p);
            let grown = before.last().push(c);
            assert(is_word(before[before.len() - 1]));
            assert(is_word(grown)) by {
                assert forall|j: int| 0 <= j < grown.len() implies !is_ascii_whitespace(
                    #[trigger] grown[j],
                ) by {
                    if j < grown.len() - 1 {
                        assert(grown[j] == before.last()[j]);
                    }
                }
            }
            assert forall|i: int| 0 <= i < words(s).len() implies is_word(
                #[trigger] words(s)[i],
            ) by {
                if i < before.len() - 1 {
                    assert(words(s)[i] == before[i]);
                } else {
                    assert(words(s)[i] == grown);
                }
            }
        } else {
            assert(is_word(seq![c]));
            assert forall|i: int| 0 <= i < words(s).len() implies is_word(
                #[trigger] words(s)[i],
            ) by {
                if i < before.len() {
                    assert(words(s)[i] == before[i]);
                } else {
                    assert(words(s)[i] == seq![c]);
                }
            }
        }
    }
}

/// The words and one separator between each two of them fit into the line.
pub proof fn lemma_words_fit(s: Seq<char>)
    ensures
        total_chars(words(s)) + words(s).len() <= s.len() + 1,
        s.len() == 0 || is_ascii_whitespace(s.last()) ==> total_chars(words(s)) + words(s).len()
            <= s.len(),
        total_chars(words(s)) >= 0,
    decreases s.len(),
{
    if s.len() > 0 {
        let p = s.drop_last();
        let before = words(p);
        let c = s.last();
        lemma_words_fit(p);
        if is_ascii_whitespace(c) {
        } else if s.len() >= 2 && !is_ascii_whitespace(s[s.len() - 2]) {
            lemma_words_last(p);
            assert(words(s).drop_last() == before.drop_last());
        } else {
            assert(words(s).drop_last() == before);
        }
    }
}

/// Counting characters word by word: a prefix of the words never holds more
/// than all of them.
pub proof fn lemma_total_chars_prefix(ws: Seq<Seq<char>>, k: int)
    requires
        0 <= k <= ws.len(),
    ensures
        0 <= total_chars(ws.take(k)) <= total_chars(ws),
    decreases ws.len() - k,
{
    if k == ws.len() {
        assert(ws.take(k) == ws);
        lemma_total_chars_nonnegative(ws);
    } else {
        lemma_total_chars_prefix(ws, k + 1);
        assert(ws.take(k + 1).drop_last() == ws.take(k));
        lemma_total_chars_nonnegative(ws.take(k));
    }
}

proof fn lemma_total_chars_nonnegative(ws: Seq<Seq<char>>)
    ensures
        total_chars(ws) >= 0,
    decreases ws.len(),
{
    if ws.len() > 0 {
        lemma_total_chars_nonnegative(ws.drop_last());
    }
}

/// Spaces after a line add no word to it.
pub proof fn lemma_words_then_spaces(s: Seq<char>, n: int)
    ensures
        words(s + spaces(n)) == words(s),
    decreases n,
{
    if n <= 0 {
        assert(s + spaces(n) == s);
    } else {
        lemma_words_then_spaces(s, n - 1);
        assert((s + spaces(n)).drop_last() == s + spaces(n - 1));
    }
}

/// A word after a line that is empty or ends in white space is one more
/// word of the line.
pub proof fn lemma_words_then_word(s: Seq<char>, w: Seq<char>)
    requires
        s.len() == 0 || is_ascii_whitespace(s.last()),
        is_word(w),
    ensures
        words(s + w) == words(s).push(w),
    decreases w.len(),
{
    let head = w.drop_last();
    let c = w.last();
    assert((s + w).drop_last() == s + head);
    assert(!is_ascii_whitespace(w[w.len() - 1]));
    if head.len() == 0 {
        assert(s + head == s);
        assert(w == seq![c]);
    } else {
        assert(is_word(head)) by {
            assert forall|j: int| 0 <= j < head.len() implies !is_ascii_whitespace(
                #[trigger] head[j],
            ) by {
                assert(head[j] == w[j]);
            }
        }
        lemma_words_then_word(s, head);
        assert((s + w)[(s + w).len() - 2] == head.last());
        assert(!is_ascii_whitespace(w[w.len() - 2]));
        assert(words(s).push(head).drop_last() == words(s));
        assert(head.push(c) == w);
    }
}

/// The words of `line[lo..hi]`, each as a vector of its own.
pub fn split_words(line: &Vec<char>, lo: usize, hi: usize) -> (out: Vec<Vec<char>>)
    requires
        lo <= hi <= line.len(),
    ensures
        word_views(out@) == words(line@.subrange(lo as int, hi as int)),
{
    let ghost s = line@.subrange(lo as int, hi as int);
    let mut done: Vec<Vec<char>> = Vec::new();
    let mut word: Vec<char> = Vec::new();
    let mut i: usize = lo;
    while i < hi
        invariant
            lo <= i <= hi <= line.len(),
            s == line@.subrange(lo as int, hi as int),
            (word@.len() > 0) == (i > lo && !is_ascii_whitespace(line@[i - 1])),
            words(s.take(i - lo)) == if word@.len() > 0 {
                word_views(done@).push(word@)
            } else {
                word_views(done@)
            },
        decreases hi - i,
    {
        let c = line[i];
        proof {
            let t = s.take(i - lo + 1);
            assert(t.drop_last() == s.take(i - lo));
            assert(t.last() == c);
            if i > lo {
                assert(t[t.len() - 2] == line@[i - 1]);
            }
        }
        if ascii_whitespace(c) {
            if word.len() > 0 {
                proof {
                    assert(word_views(done@.push(word)) == word_views(done@).push(word@));
                }
                done.push(word);
                word = Vec::new();
            }
        } else {
            proof {
                if word@.len() > 0 {
                    assert(word_views(done@).push(word@).drop_last() == word_views(done@));
                } else {
                    assert(word@.push(c) == seq![c]);
                }
            }
            word.push(c);
        }
        i += 1;
    }
    proof {
        assert(s.take(hi - lo) == s);
    }
    if word.len() > 0 {
        proof {
            assert(word_views(done@.push(word)) == word_views(done@).push(word@));
        }
        done.push(word);
    }
    done
}

/// The number of characters in all of `ws` together.
pub fn count_chars(ws: &Vec<Vec<char>>) -> (total: usize)
    requires
        total_chars(word_views(ws@)) <= usize::MAX,
    ensures
        total == total_chars(word_views(ws@)),
{
    let ghost all = word_views(ws@);
    let mut total: usize = 0;
    let mut i: usize = 0;
    while i < ws.len()
        invariant
            i <= ws.len(),
            all == word_views(ws@),
            total_chars(all) <= usize::MAX,
            total == total_chars(all.take(i as int)),
        decreases ws.len() - i,
    {
        proof {
            lemma_total_chars_prefix(all, i + 1);
            assert(all.take(i + 1).drop_last() == all.take(i as int));
        }
        total += ws[i].len();
        i += 1;
    }
    proof {
        assert(all.take(ws.len() as int) == all);
    }
    total
}

} // verus!
