//! Full justification: the words of a line, set apart by runs of spaces so
//! that the line reaches a width exactly.
//!
//! The spaces to hand out are the width less the characters of the words.
//! Every gap gets the same share, and what is left over goes, one space
//! each, to gaps chosen by even spreading.

use crate::spread::{
    get_index_spread, lemma_spread_count, selected_below, spread_index, spread_len,
    spread_selects, spread_selects_within,
};
use crate::text::{
    content_end, ends_with_newline, is_ascii_whitespace, lemma_trimmed_len, line_content,
    line_ending, push_range, push_spaces, spaces, trimmed, trimmed_bounds,
};
use crate::words::{
    count_chars, is_word, lemma_words_are_words, lemma_words_fit, lemma_words_then_spaces,
    lemma_words_then_word, split_words, total_chars, word_views, words,
};
use vstd::prelude::*;

verus! {

/// The width of gap `k` when `budget` spaces are shared among `gaps` gaps:
/// the even share, and one more where the spread of the remainder chooses
/// this gap.
pub open spec fn gap_width(budget: int, gaps: int, k: int) -> int {
    budget / gaps + if spread_selects(budget % gaps, gaps, k) {
        1int
    } else {
        0
    }
}

/// The widths of all `gaps` gaps, in order.
pub open spec fn gap_widths(budget: int, gaps: int) -> Seq<int> {
    Seq::new(
        if gaps >= 0 {
            gaps as nat
        } else {
            0
        },
        |k: int| gap_width(budget, gaps, k),
    )
}

/// The spaces in all the gaps of `widths` together.
pub open spec fn total_spaces(widths: Seq<int>) -> int
    decreases widths.len(),
{
    if widths.len() == 0 {
        0
    } else {
        total_spaces(widths.drop_last()) + widths.last()
    }
}

/// The words `ws` in a row, with `widths[k]` spaces between word `k` and
/// word `k + 1`, and nothing after the last word.
pub open spec fn joined(ws: Seq<Seq<char>>, widths: Seq<int>) -> Seq<char>
    recommends
        widths.len() + 1 >= ws.len(),
    decreases ws.len(),
{
    if ws.len() == 0 {
        Seq::empty()
    } else if ws.len() == 1 {
        ws[0]
    } else {
        joined(ws.drop_last(), widths) + spaces(widths[ws.len() - 2]) + ws.last()
    }
}

/// The line justified to `width`.
///
/// A line whose content is already `width` long or longer, and a line of
/// fewer than two words, stay as they are. Otherwise the words of the
/// trimmed content are joined by gaps that take up all of the width that the
/// words leave, and the line's newline, if it has one, follows.
pub open spec fn justified(s: Seq<char>, width: int) -> Seq<char> {
    let content = line_content(s);
    let ws = words(trimmed(content));
    if width <= content.len() || ws.len() < 2 {
        s
    } else {
        joined(ws, gap_widths(width - total_chars(ws), ws.len() - 1)) + line_ending(s)
    }
}

proof fn lemma_gap_widths_prefix_sum(budget: int, gaps: int, m: int)
    requires
        0 <= budget,
        0 < gaps,
        0 <= m <= gaps,
    ensures
        total_spaces(gap_widths(budget, gaps).take(m)) == (budget / gaps) * m + selected_below(
            budget % gaps,
            gaps,
            m,
        ),
    decreases m,
{
    let all = gap_widths(budget, gaps);
    let share = budget / gaps;
    if m > 0 {
        lemma_gap_widths_prefix_sum(budget, gaps, m - 1);
        assert(all.take(m).drop_last() == all.take(m - 1));
        assert(all.take(m).last() == gap_width(budget, gaps, m - 1));
        assert(share * m == share * (m - 1) + share) by (nonlinear_arith);
    } else {
        assert(all.take(m).len() == 0);
        assert(share * m == 0) by (nonlinear_arith)
            requires
                m == 0,
        ;
    }
}

/// The gaps take up the whole budget, each of them its even share or one
/// space more, and as many of them one more as the division leaves over.
pub proof fn lemma_gap_widths(budget: int, gaps: int)
    requires
        0 <= budget,
        0 < gaps,
    ensures
        gap_widths(budget, gaps).len() == gaps,
        total_spaces(gap_widths(budget, gaps)) == budget,
        selected_below(budget % gaps, gaps, gaps) == budget % gaps,
        forall|k: int|
            0 <= k < gaps ==> {
                ||| #[trigger] gap_widths(budget, gaps)[k] == budget / gaps
                ||| gap_widths(budget, gaps)[k] == budget / gaps + 1
            },
        forall|k: int|
            0 <= k < gaps ==> (#[trigger] gap_widths(budget, gaps)[k] == budget / gaps + 1
                <==> spread_selects(budget % gaps, gaps, k)),
        budget >= gaps ==> budget / gaps >= 1,
{
    let all = gap_widths(budget, gaps);
    let rest = budget % gaps;
    assert(0 <= rest < gaps && budget == (budget / gaps) * gaps + rest && (budget >= gaps
        ==> budget / gaps >= 1)) by (nonlinear_arith)
        requires
            0 <= budget,
            0 < gaps,
            rest == budget % gaps,
    ;
    lemma_gap_widths_prefix_sum(budget, gaps, gaps);
    assert(all.take(gaps) == all);
    lemma_spread_count(rest, gaps);
}

/// The length of a joined line: the characters of its words and the spaces
/// of the gaps between them.
pub proof fn lemma_joined_len(ws: Seq<Seq<char>>, widths: Seq<int>)
    requires
        ws.len() >= 1,
        widths.len() + 1 >= ws.len(),
        forall|k: int| 0 <= k < widths.len() ==> widths[k] >= 0,
    ensures
        joined(ws, widths).len() == total_chars(ws) + total_spaces(widths.take(ws.len() - 1)),
    decreases ws.len(),
{
    if ws.len() == 1 {
        assert(ws.drop_last().len() == 0);
        assert(total_chars(ws.drop_last()) == 0);
        assert(widths.take(0).len() == 0);
    } else {
        lemma_joined_len(ws.drop_last(), widths);
        assert(widths.take(ws.len() - 1).drop_last() == widths.take(ws.len() - 2));
    }
}

/// A joined line of at least one word ends as its last word does.
pub proof fn lemma_joined_last(ws: Seq<Seq<char>>, widths: Seq<int>)
    requires
        ws.len() >= 1,
        ws.last().len() > 0,
    ensures
        joined(ws, widths).len() > 0,
        joined(ws, widths).last() == ws.last().last(),
{
}

/// What justification achieves. For a line of two or more words that is
/// shorter than `width`: the justified line, its newline aside, is exactly
/// `width` long; it keeps its newline, or stays without one; every gap holds
/// at least one space; and every gap holds the even share of the spaces or
/// one more, with the shares adding up to all the spaces there are.
pub proof fn lemma_justified_fills_width(s: Seq<char>, width: int)
    requires
        words(trimmed(line_content(s))).len() >= 2,
        width > line_content(s).len(),
    ensures
        ({
            let ws = words(trimmed(line_content(s)));
            let budget = width - total_chars(ws);
            let gaps = ws.len() - 1;
            let widths = gap_widths(budget, gaps);
            &&& line_content(justified(s, width)).len() == width
            &&& ends_with_newline(justified(s, width)) == ends_with_newline(s)
            &&& line_content(justified(s, width)) == joined(ws, widths)
            &&& budget > gaps
            &&& widths.len() == gaps
            &&& total_spaces(widths) == budget
            &&& forall|k: int| 0 <= k < gaps ==> #[trigger] widths[k] >= 1
            &&& forall|k: int|
                0 <= k < gaps ==> (#[trigger] widths[k] == budget / gaps || widths[k] == budget
                    / gaps + 1)
        }),
{
    let content = line_content(s);
    let body = trimmed(content);
    let ws = words(body);
    let budget = width - total_chars(ws);
    let gaps = ws.len() - 1;
    let widths = gap_widths(budget, gaps);
    lemma_trimmed_len(content);
    lemma_words_fit(body);
    lemma_words_are_words(body);
    lemma_gap_widths(budget, gaps);
    lemma_joined_len(ws, widths);
    lemma_joined_last(ws, widths);
    assert(widths.take(gaps) == widths);
    let line = joined(ws, widths);
    assert(!is_ascii_whitespace(ws.last().last())) by {
        assert(is_word(ws[ws.len() - 1]));
        assert(!is_ascii_whitespace(ws[ws.len() - 1][ws.last().len() - 1]));
    }
    if ends_with_newline(s) {
        assert((line + seq!['\n']).drop_last() == line);
    } else {
        assert(line + Seq::<char>::empty() == line);
    }
}

/// The words of a joined line are the words that were joined, where every
/// gap holds at least one space.
pub proof fn lemma_joined_words(ws: Seq<Seq<char>>, widths: Seq<int>)
    requires
        widths.len() + 1 >= ws.len(),
        forall|i: int| 0 <= i < ws.len() ==> is_word(#[trigger] ws[i]),
        forall|k: int| 0 <= k < widths.len() ==> #[trigger] widths[k] >= 1,
    ensures
        words(joined(ws, widths)) == ws,
    decreases ws.len(),
{
    if ws.len() == 0 {
    } else if ws.len() == 1 {
        assert(is_word(ws[0]));
        lemma_words_then_word(Seq::empty(), ws[0]);
        assert(Seq::<char>::empty() + ws[0] == ws[0]);
        assert(Seq::<Seq<char>>::empty().push(ws[0]) == ws);
    } else {
        let head = joined(ws.drop_last(), widths);
        let gap = spaces(widths[ws.len() - 2]);
        assert forall|i: int| 0 <= i < ws.drop_last().len() implies is_word(
            #[trigger] ws.drop_last()[i],
        ) by {
            assert(ws.drop_last()[i] == ws[i]);
        }
        lemma_joined_words(ws.drop_last(), widths);
        lemma_words_then_spaces(head, widths[ws.len() - 2]);
        assert(widths[ws.len() - 2] >= 1);
        assert((head + gap).last() == ' ');
        assert(is_word(ws[ws.len() - 1]));
        lemma_words_then_word(head + gap, ws.last());
        assert(ws.drop_last().push(ws.last()) == ws);
    }
}

/// Justification keeps the words: the justified line holds the words of
/// the line, in their order, and no others.
pub proof fn lemma_justified_keeps_words(s: Seq<char>, width: int)
    requires
        words(trimmed(line_content(s))).len() >= 2,
        width > line_content(s).len(),
    ensures
        words(line_content(justified(s, width))) == words(trimmed(line_content(s))),
{
    let body = trimmed(line_content(s));
    let ws = words(body);
    let widths = gap_widths(width - total_chars(ws), ws.len() - 1);
    lemma_justified_fills_width(s, width);
    lemma_words_are_words(body);
    lemma_joined_words(ws, widths);
}

/// The widths of `gaps` gaps that share `budget` spaces.
pub fn space_counts(budget: usize, gaps: usize) -> (counts: Vec<usize>)
    requires
        0 < gaps,
    ensures
        counts@.len() == gaps,
        forall|k: int| 0 <= k < gaps ==> #[trigger] counts@[k] as int == gap_width(
            budget as int,
            gaps as int,
            k,
        ),
{
    let share = budget / gaps;
    let rest = budget % gaps;
    proof {
        assert(budget as int == share * gaps + rest && (rest > 0 ==> share < budget))
            by (nonlinear_arith)
            requires
                0 < gaps,
                share == (budget as int) / (gaps as int),
                rest == (budget as int) % (gaps as int),
                0 <= budget,
        ;
    }
    let mut counts: Vec<usize> = Vec::new();
    let mut k: usize = 0;
    while k < gaps
        invariant
            k <= gaps,
            counts@.len() == k,
            forall|i: int| 0 <= i < k ==> #[trigger] counts@[i] == share,
        decreases gaps - k,
    {
        counts.push(share);
        k += 1;
    }
    match get_index_spread(rest, gaps) {
        None => {
            proof {
                assert forall|k: int| 0 <= k < gaps implies !spread_selects(
                    rest as int,
                    gaps as int,
                    k,
                ) by {}
            }
        },
        Some(indices) => {
            let mut j: usize = 0;
            while j < indices.len()
                invariant
                    j <= indices@.len(),
                    0 < rest < gaps,
                    share < budget,
                    indices@.len() == spread_len(rest as int, gaps as int),
                    forall|i: int|
                        0 <= i < indices@.len() ==> #[trigger] indices@[i] as int == spread_index(
                            rest as int,
                            gaps as int,
                            i,
                        ),
                    forall|i: int| 0 <= i < indices@.len() ==> #[trigger] indices@[i] < gaps,
                    forall|a: int, b: int|
                        0 <= a < b < indices@.len() ==> #[trigger] indices@[a]
                            < #[trigger] indices@[b],
                    counts@.len() == gaps,
                    forall|k: int|
                        0 <= k < gaps ==> #[trigger] counts@[k] as int == share + if spread_selects_within(
                            rest as int,
                            gaps as int,
                            j as int,
                            k,
                        ) {
                            1int
                        } else {
                            0
                        },
                decreases indices@.len() - j,
            {
                let slot = indices[j];
                let ghost before = counts@;
                proof {
                    assert(!spread_selects_within(rest as int, gaps as int, j as int, slot as int))
                        by {
                        assert forall|i: int| 0 <= i < j implies spread_index(
                            rest as int,
                            gaps as int,
                            i,
                        ) != slot by {
                            assert(indices@[i] < indices@[j as int]);
                        }
                    }
                    assert(before[slot as int] == share);
                }
                counts.set(slot, counts[slot] + 1);
                proof {
                    assert forall|k: int| 0 <= k < gaps implies #[trigger] counts@[k] as int
                        == share + if spread_selects_within(
                        rest as int,
                        gaps as int,
                        j as int + 1,
                        k,
                    ) {
                        1int
                    } else {
                        0
                    } by {
                        if k == slot {
                            assert(spread_index(rest as int, gaps as int, j as int) == k);
                        } else if spread_selects_within(rest as int, gaps as int, j as int + 1, k) {
                            let i = choose|i: int|
                                0 <= i < j + 1 && #[trigger] spread_index(
                                    rest as int,
                                    gaps as int,
                                    i,
                                ) == k;
                            assert(indices@[j as int] as int == spread_index(
                                rest as int,
                                gaps as int,
                                j as int,
                            ));
                            assert(i < j);
                        } else {
                            assert(before[k] == counts@[k]);
                        }
                    }
                }
                j += 1;
            }
        },
    }
    counts
}

/// The words `ws` in a row, with `counts[k]` spaces after word `k`.
pub fn join_words(ws: &Vec<Vec<char>>, counts: &Vec<usize>) -> (out: Vec<char>)
    requires
        counts@.len() + 1 >= ws@.len(),
    ensures
        out@ == joined(word_views(ws@), counts@.map_values(|c: usize| c as int)),
{
    let ghost all = word_views(ws@);
    let ghost widths = counts@.map_values(|c: usize| c as int);
    let mut out: Vec<char> = Vec::new();
    if ws.len() == 0 {
        return out;
    }
    push_range(&mut out, &ws[0], 0, ws[0].len());
    proof {
        assert(ws@[0]@.subrange(0, ws@[0]@.len() as int) == ws@[0]@);
        assert(out@ == all.take(1)[0]);
    }
    let mut k: usize = 1;
    while k < ws.len()
        invariant
            1 <= k <= ws@.len(),
            counts@.len() + 1 >= ws@.len(),
            all == word_views(ws@),
            widths == counts@.map_values(|c: usize| c as int),
            out@ == joined(all.take(k as int), widths),
        decreases ws@.len() - k,
    {
        proof {
            assert(all.take(k + 1).drop_last() == all.take(k as int));
            assert(ws@[k as int]@.subrange(0, ws@[k as int]@.len() as int) == ws@[k as int]@);
        }
        push_spaces(&mut out, counts[k - 1]);
        push_range(&mut out, &ws[k], 0, ws[k].len());
        k += 1;
    }
    proof {
        assert(all.take(ws@.len() as int) == all);
    }
    out
}

/// Justifies `line` to `width`.
pub fn justify_chars(line: &Vec<char>, width: usize) -> (out: Vec<char>)
    ensures
        out@ == justified(line@, width as int),
{
    let end = content_end(line);
    let mut out: Vec<char> = Vec::new();
    if width <= end {
        push_range(&mut out, line, 0, line.len());
        proof {
            assert(line@.subrange(0, line@.len() as int) == line@);
        }
        return out;
    }
    let (lo, hi) = trimmed_bounds(line, end);
    let ws = split_words(line, lo, hi);
    if ws.len() < 2 {
        push_range(&mut out, line, 0, line.len());
        proof {
            assert(line@.subrange(0, line@.len() as int) == line@);
        }
        return out;
    }
    proof {
        lemma_words_fit(trimmed(line_content(line@)));
    }
    let total = count_chars(&ws);
    let budget = width - total;
    let gaps = ws.len() - 1;
    let counts = space_counts(budget, gaps);
    let mut out = join_words(&ws, &counts);
    proof {
        assert(counts@.map_values(|c: usize| c as int) == gap_widths(budget as int, gaps as int));
    }
    if end < line.len() {
        out.push('\n');
        proof {
            assert(seq!['\n'] == Seq::<char>::empty().push('\n'));
        }
    } else {
        proof {
            assert(out@ + Seq::<char>::empty() == out@);
        }
    }
    out
}

} // verus!
