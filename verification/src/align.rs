//! Alignment of a line to a width by padding with spaces: to the left, to
//! the right, or centred.
//!
//! The text of a line is its content, trimmed of white space at both ends.
//! A line whose text is as long as the width or longer is left as it is,
//! never cut. A shorter one is padded to the width, and its newline, if it
//! has one, follows the padding.

use crate::text::{
    content_end, ends_with_newline, is_whitespace, line_content, line_ending, push_range,
    push_spaces, spaces, trim_end, trim_start, trimmed, trimmed_bounds,
};
use vstd::prelude::*;

verus! {

/// The text of the line: its content without the white space around it.
pub open spec fn line_text(s: Seq<char>) -> Seq<char> {
    trimmed(line_content(s))
}

/// The text of `s` between `left` spaces and `right` spaces, followed by the
/// newline of `s` if it has one.
pub open spec fn padded(s: Seq<char>, left: int, right: int) -> Seq<char> {
    spaces(left) + line_text(s) + spaces(right) + line_ending(s)
}

/// The line aligned to the left: all padding follows the text.
pub open spec fn left_aligned(s: Seq<char>, width: int) -> Seq<char> {
    let len = line_text(s).len();
    if width <= len {
        s
    } else {
        padded(s, 0, width - len)
    }
}

/// The line aligned to the right: all padding precedes the text.
pub open spec fn right_aligned(s: Seq<char>, width: int) -> Seq<char> {
    let len = line_text(s).len();
    if width <= len {
        s
    } else {
        padded(s, width - len, 0)
    }
}

/// The line centred: half of the padding, rounded down, precedes the text.
/// The rest follows it when `trailing` is set, and is left out otherwise.
pub open spec fn centered(s: Seq<char>, width: int, trailing: bool) -> Seq<char> {
    let len = line_text(s).len();
    if width <= len {
        s
    } else {
        let left = (width - len) / 2;
        let right = (width - len) - left;
        padded(
            s,
            left,
            if trailing {
                right
            } else {
                0
            },
        )
    }
}

/// The larger of two lengths.
pub open spec fn longer(a: int, b: int) -> int {
    if a >= b {
        a
    } else {
        b
    }
}

/// Whether the content of the line has no white space around it, so that
/// the content is the text.
pub open spec fn is_bare(s: Seq<char>) -> bool {
    line_content(s) == line_text(s)
}

proof fn lemma_trim_end_last(s: Seq<char>)
    ensures
        trim_end(s).len() > 0 ==> !is_whitespace(trim_end(s).last()),
    decreases s.len(),
{
    if s.len() > 0 && is_whitespace(s.last()) {
        lemma_trim_end_last(s.drop_last());
    }
}

/// A padded line keeps the newline of the line it was made from, and has no
/// other: without it, it is the padding and the text.
pub proof fn lemma_padded_content(s: Seq<char>, left: int, right: int)
    ensures
        ends_with_newline(padded(s, left, right)) == ends_with_newline(s),
        line_content(padded(s, left, right)) == spaces(left) + line_text(s) + spaces(right),
        line_content(padded(s, left, right)).len() == longer(left, 0) + line_text(s).len()
            + longer(right, 0),
{
    let inner = spaces(left) + line_text(s) + spaces(right);
    if ends_with_newline(s) {
        assert((inner + seq!['\n']).drop_last() == inner);
    } else {
        assert(inner + Seq::<char>::empty() == inner);
        lemma_trim_end_last(trim_start(line_content(s)));
        if inner.len() > 0 {
            if right > 0 {
                assert(inner.last() == ' ');
            } else if line_text(s).len() > 0 {
                assert(inner.last() == line_text(s).last());
            } else {
                assert(inner.last() == ' ');
            }
        }
    }
}

/// The length of a line aligned to the left, its newline aside, is the
/// width or the length of its text, whichever is more, and its padding
/// follows the text. This is stated of every line but one that is left as
/// it is and has white space around its content.
pub proof fn lemma_left_aligned_len(s: Seq<char>, width: int)
    requires
        width > line_text(s).len() || is_bare(s),
    ensures
        line_content(left_aligned(s, width)).len() == longer(width, line_text(s).len() as int),
        ends_with_newline(left_aligned(s, width)) == ends_with_newline(s),
        width > line_text(s).len() ==> line_content(left_aligned(s, width)) == line_text(s)
            + spaces(width - line_text(s).len()),
{
    let len = line_text(s).len();
    if width > len {
        lemma_padded_content(s, 0, width - len);
        assert(spaces(0) + line_text(s) == line_text(s));
    }
}

/// The length of a line aligned to the right, its newline aside, is the
/// width or the length of its text, whichever is more, and its padding
/// precedes the text. This is stated of every line but one that is left as
/// it is and has white space around its content.
pub proof fn lemma_right_aligned_len(s: Seq<char>, width: int)
    requires
        width > line_text(s).len() || is_bare(s),
    ensures
        line_content(right_aligned(s, width)).len() == longer(width, line_text(s).len() as int),
        ends_with_newline(right_aligned(s, width)) == ends_with_newline(s),
        width > line_text(s).len() ==> line_content(right_aligned(s, width)) == spaces(
            width - line_text(s).len(),
        ) + line_text(s),
{
    let len = line_text(s).len();
    if width > len {
        lemma_padded_content(s, width - len, 0);
        assert(spaces(width - len) + line_text(s) + spaces(0) == spaces(width - len) + line_text(
            s,
        ));
    }
}

/// The length of a centred line with its trailing padding, its newline
/// aside, is the width or the length of its text, whichever is more. The
/// padding is split in two halves, and where it is odd the extra space
/// follows the text. This is stated of every line but one that is left as
/// it is and has white space around its content.
pub proof fn lemma_centered_len(s: Seq<char>, width: int)
    requires
        width > line_text(s).len() || is_bare(s),
    ensures
        line_content(centered(s, width, true)).len() == longer(
            width,
            line_text(s).len() as int,
        ),
        ends_with_newline(centered(s, width, true)) == ends_with_newline(s),
        width > line_text(s).len() ==> ({
            let left = (width - line_text(s).len()) / 2;
            let right = (width - line_text(s).len()) - left;
            &&& left <= right <= left + 1
            &&& line_content(centered(s, width, true)) == spaces(left) + line_text(s) + spaces(
                right,
            )
        }),
{
    let len = line_text(s).len();
    if width > len {
        let left = (width - len) / 2;
        lemma_padded_content(s, left, (width - len) - left);
    }
}

/// The text of `line[lo..hi]` set between `left` and `right` spaces, and a
/// newline after it where `newline` is set.
fn pad_chars(
    line: &Vec<char>,
    lo: usize,
    hi: usize,
    left: usize,
    right: usize,
    newline: bool,
) -> (out: Vec<char>)
    requires
        lo <= hi <= line.len(),
    ensures
        out@ == spaces(left as int) + line@.subrange(lo as int, hi as int) + spaces(right as int)
            + if newline {
            seq!['\n']
        } else {
            Seq::empty()
        },
{
    let mut out: Vec<char> = Vec::new();
    push_spaces(&mut out, left);
    push_range(&mut out, line, lo, hi);
    push_spaces(&mut out, right);
    proof {
        assert(out@ == spaces(left as int) + line@.subrange(lo as int, hi as int) + spaces(
            right as int,
        ));
    }
    if newline {
        out.push('\n');
        proof {
            let inner = spaces(left as int) + line@.subrange(lo as int, hi as int) + spaces(
                right as int,
            );
            assert(inner.push('\n') == inner + seq!['\n']);
        }
    } else {
        proof {
            assert(out@ + Seq::<char>::empty() == out@);
        }
    }
    out
}

/// A copy of `line`.
fn copy_chars(line: &Vec<char>) -> (out: Vec<char>)
    ensures
        out@ == line@,
{
    let mut out: Vec<char> = Vec::new();
    push_range(&mut out, line, 0, line.len());
    proof {
        assert(line@.subrange(0, line@.len() as int) == line@);
    }
    out
}

/// Aligns `line` to the left of `width`.
pub fn left_align_chars(line: &Vec<char>, width: usize) -> (out: Vec<char>)
    ensures
        out@ == left_aligned(line@, width as int),
{
    let end = content_end(line);
    let (lo, hi) = trimmed_bounds(line, end);
    if width <= hi - lo {
        return copy_chars(line);
    }
    pad_chars(line, lo, hi, 0, width - (hi - lo), end < line.len())
}

/// Aligns `line` to the right of `width`.
pub fn right_align_chars(line: &Vec<char>, width: usize) -> (out: Vec<char>)
    ensures
        out@ == right_aligned(line@, width as int),
{
    let end = content_end(line);
    let (lo, hi) = trimmed_bounds(line, end);
    if width <= hi - lo {
        return copy_chars(line);
    }
    pad_chars(line, lo, hi, width - (hi - lo), 0, end < line.len())
}

/// Centres `line` in `width`, with or without the padding after the text.
pub fn center_align_chars(line: &Vec<char>, width: usize, trailing: bool) -> (out: Vec<char>)
    ensures
        out@ == centered(line@, width as int, trailing),
{
    let end = content_end(line);
    let (lo, hi) = trimmed_bounds(line, end);
    if width <= hi - lo {
        return copy_chars(line);
    }
    let padding = width - (hi - lo);
    let left = padding / 2;
    let right = if trailing {
        padding - left
    } else {
        0
    };
    pad_chars(line, lo, hi, left, right, end < line.len())
}

} // verus!
