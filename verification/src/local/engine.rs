//! The regular expression engine: what the matchers take on trust from the
//! `regex` crate.
//!
//! Nothing in this file is proved. The two wrappers make the calls, and two
//! names stand for what the engine computes: whether it accepts a pattern,
//! and what a compiled expression finds in a text. No contract says what
//! either is for any given pattern.

use regex::Regex;
use vstd::prelude::*;

verus! {

/// `regex::Regex`, a compiled regular expression. It is carried about and
/// handed back to the engine; nothing is known of what is in it.
#[verifier::external_type_specification]
#[verifier::external_body]
pub struct ExRegex(regex::Regex);

/// `regex::Error`, the reason for which the engine refused a pattern. It is
/// carried about for the caller to show.
#[verifier::external_type_specification]
#[verifier::external_body]
pub struct ExRegexError(regex::Error);

/// Whether `Regex::new` accepts `pattern`: whether the pattern is well
/// formed and the expression that it compiles to stays within the default
/// size limit.
pub uninterp spec fn pattern_compiles(pattern: Seq<char>) -> bool;

/// What `Regex::captures` finds in `text` for the groups named `first` and
/// `second`, as `Captures::name` hands them out. It is `None` where the
/// expression `re` matches nowhere in `text`. Else it holds, for the
/// leftmost match and for each of the two names, the part of `text` that
/// the group matched; or `None` where the expression has no group of that
/// name, or the group took no part in the match.
pub uninterp spec fn regex_captures(
    re: Regex,
    text: Seq<char>,
    first: Seq<char>,
    second: Seq<char>,
) -> Option<(Option<Seq<char>>, Option<Seq<char>>)>;

/// `Regex::new`: compiles `pattern`. The contract claims that the call
/// succeeds on the patterns of which `pattern_compiles` holds, and on no
/// others; of the expression and of the error it claims nothing.
#[verifier::external_body]
pub(crate) fn compile(pattern: &str) -> (r: Result<Regex, regex::Error>)
    ensures
        r is Ok <==> pattern_compiles(pattern@),
{
    Regex::new(pattern)
}

/// `Regex::captures`, then `Captures::name` for `first` and for `second`
/// and `Match::as_str` on what they give. The contract claims that the
/// result is `regex_captures` of the arguments: that it depends on the
/// expression, the text and the two names alone.
#[verifier::external_body]
pub(crate) fn capture_two(re: &Regex, text: &str, first: &str, second: &str) -> (r: Option<
    (Option<String>, Option<String>),
>)
    ensures
        r.deep_view() == regex_captures(*re, text@, first@, second@),
{
    re.captures(text).map(
        |c|
            (
                c.name(first).map(|m| m.as_str().to_string()),
                c.name(second).map(|m| m.as_str().to_string()),
            ),
    )
}

} // verus!
