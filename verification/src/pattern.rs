//! Replacement of the matches of a regular expression, done by the `regex`
//! crate. Nothing here is proved of the engine: what it returns is given a
//! name, and the contracts say which call gives which result.

use regex::Regex;
use vstd::prelude::*;

verus! {

/// Whether the `regex` crate compiles `pattern`: whether `Regex::new`
/// returns `Ok` for it, which it does for a pattern that is well formed and
/// within the engine's default size limit.
pub uninterp spec fn pattern_compiles(pattern: Seq<char>) -> bool;

/// What `Regex::replace_all` returns for the compiled `pattern`: `text` with
/// every match of the pattern, taken from the left and without overlap,
/// replaced by `replacement`, in which `$name` stands for a capture group.
pub uninterp spec fn replaced_matches(
    text: Seq<char>,
    pattern: Seq<char>,
    replacement: Seq<char>,
) -> Seq<char>;

/// Calls `Regex::new` and says whether it returned `Ok`. Trusted: the
/// answer is the one that `pattern_compiles` names.
#[verifier::external_body]
fn compiles(pattern: &str) -> (ok: bool)
    ensures
        ok == pattern_compiles(pattern@),
{
    Regex::new(pattern).is_ok()
}

/// `text` with every match of `regular_expression` replaced by
/// `replacement`.
///
/// Calls `Regex::new` and then `Regex::replace_all` on the result. Trusted:
/// the string that comes back is the one that `replaced_matches` names. A
/// pattern that does not compile is left out, since `Regex::new` has no
/// regular expression to give for it.
#[verifier::external_body]
pub fn replace_matches(text: &str, regular_expression: &str, replacement: &str) -> (out: String)
    requires
        pattern_compiles(regular_expression@),
    ensures
        out@ == replaced_matches(text@, regular_expression@, replacement@),
{
    Regex::new(regular_expression).unwrap().replace_all(text, replacement).into_owned()
}

/// `text` with every match of `regular_expression` replaced by
/// `replacement`, or `None` where the pattern does not compile.
pub fn try_replace_matches(text: &str, regular_expression: &str, replacement: &str) -> (out:
    Option<String>)
    ensures
        out is Some <==> pattern_compiles(regular_expression@),
        out matches Some(replaced) ==> replaced@ == replaced_matches(
            text@,
            regular_expression@,
            replacement@,
        ),
{
    if compiles(regular_expression) {
        Some(replace_matches(text, regular_expression, replacement))
    } else {
        None
    }
}

} // verus!
