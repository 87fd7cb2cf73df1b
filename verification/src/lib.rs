//! Text alignment for single lines: left, right and centre alignment to a
//! width, full justification, and its undoing.
//!
//! Widths and lengths count characters. A line may end in one newline, which
//! is kept and never counted.

pub mod align;
pub mod dejustify;
pub mod justify;
pub mod pattern;
pub mod spread;
pub mod text;
pub mod words;

pub use crate::pattern::{replace_matches, try_replace_matches};
pub use crate::spread::get_index_spread;

use crate::align::{
    center_align_chars, centered, left_align_chars, left_aligned, right_align_chars,
    right_aligned,
};
use crate::dejustify::{dejustified, dejustify_chars};
use crate::justify::{justified, justify_chars};
use crate::text::{chars_of, string_of};
use vstd::prelude::*;

verus! {

/// The alignment of one line of text.
pub trait TextAlign {
    /// The characters of the line.
    spec fn line_view(&self) -> Seq<char>;

    /// The line centred in `width`, with padding on both sides.
    fn center_align(&self, width: usize) -> (out: String)
        ensures
            out@ == centered(self.line_view(), width as int, true),
    ;

    /// The line centred in `width`; the padding after the text is left out
    /// unless `include_trailing_padding` is set.
    fn center_align_with(&self, width: usize, include_trailing_padding: bool) -> (out: String)
        ensures
            out@ == centered(self.line_view(), width as int, include_trailing_padding),
    ;

    /// The line aligned to the left of `width`.
    fn left_align(&self, width: usize) -> (out: String)
        ensures
            out@ == left_aligned(self.line_view(), width as int),
    ;

    /// The line aligned to the right of `width`.
    fn right_align(&self, width: usize) -> (out: String)
        ensures
            out@ == right_aligned(self.line_view(), width as int),
    ;

    /// The line justified to `width`.
    fn justify(&self, width: usize) -> (out: String)
        ensures
            out@ == justified(self.line_view(), width as int),
    ;

    /// The line with normal spacing, and `spaces_after_punctuation` spaces
    /// after a sentence where that is more than one.
    fn dejustify(&self, spaces_after_punctuation: usize) -> (out: String)
        ensures
            out@ == dejustified(self.line_view(), spaces_after_punctuation as int),
    ;
}

impl TextAlign for str {
    open spec fn line_view(&self) -> Seq<char> {
        self@
    }

    fn center_align(&self, width: usize) -> (out: String) {
        string_of(&center_align_chars(&chars_of(self), width, true))
    }

    fn center_align_with(&self, width: usize, include_trailing_padding: bool) -> (out: String) {
        string_of(&center_align_chars(&chars_of(self), width, include_trailing_padding))
    }

    fn left_align(&self, width: usize) -> (out: String) {
        string_of(&left_align_chars(&chars_of(self), width))
    }

    fn right_align(&self, width: usize) -> (out: String) {
        string_of(&right_align_chars(&chars_of(self), width))
    }

    fn justify(&self, width: usize) -> (out: String) {
        string_of(&justify_chars(&chars_of(self), width))
    }

    fn dejustify(&self, spaces_after_punctuation: usize) -> (out: String) {
        string_of(&dejustify_chars(&chars_of(self), spaces_after_punctuation))
    }
}

impl TextAlign for String {
    open spec fn line_view(&self) -> Seq<char> {
        self@
    }

    fn center_align(&self, width: usize) -> (out: String) {
        self.as_str().center_align(width)
    }

    fn center_align_with(&self, width: usize, include_trailing_padding: bool) -> (out: String) {
        self.as_str().center_align_with(width, include_trailing_padding)
    }

    fn left_align(&self, width: usize) -> (out: String) {
        self.as_str().left_align(width)
    }

    fn right_align(&self, width: usize) -> (out: String) {
        self.as_str().right_align(width)
    }

    fn justify(&self, width: usize) -> (out: String) {
        self.as_str().justify(width)
    }

    fn dejustify(&self, spaces_after_punctuation: usize) -> (out: String) {
        self.as_str().dejustify(spaces_after_punctuation)
    }
}

} // verus!
