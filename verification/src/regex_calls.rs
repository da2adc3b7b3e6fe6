//! The calls into the `regex` crate, with what this library takes for granted
//! about them. Nothing in this file is proved.
//!
//! What a regular expression matches, and what a replacement produces, is
//! far too much to write down here. Each of these results is given a name
//! instead: a function of the pattern text and of the other arguments, of
//! which nothing more is known than that the crate computes it.

use regex::Regex;
use vstd::prelude::*;

verus! {

/// A compiled regular expression of the `regex` crate. Its inside is not
/// visible to the proofs.
#[verifier::external_type_specification]
#[verifier::external_body]
pub struct ExRegex(regex::Regex);

/// The error that the `regex` crate reports for a pattern it cannot compile.
#[verifier::external_type_specification]
#[verifier::external_body]
pub struct ExRegexError(regex::Error);

/// Whether `Regex::new` accepts `pattern`: whether it is a valid regular
/// expression that stays within the crate's default size limit.
pub uninterp spec fn regex_compiles(pattern: Seq<char>) -> bool;

/// The pattern text that a compiled regular expression was built from, which
/// is what `Regex::as_str` returns.
pub uninterp spec fn regex_source(regex: Regex) -> Seq<char>;

/// Whether the regular expression `pattern` matches anywhere in `text`, as
/// `Regex::is_match` finds it.
pub uninterp spec fn regex_is_match(pattern: Seq<char>, text: Seq<char>) -> bool;

/// `text` with the leftmost match of `pattern` replaced by the expansion of
/// `template`, as `Regex::replace` returns it.
pub uninterp spec fn regex_replace(
    pattern: Seq<char>,
    text: Seq<char>,
    template: Seq<char>,
) -> Seq<char>;

/// `text` with every non-overlapping match of `pattern` replaced by the
/// expansion of `template`, as `Regex::replace_all` returns it.
pub uninterp spec fn regex_replace_all(
    pattern: Seq<char>,
    text: Seq<char>,
    template: Seq<char>,
) -> Seq<char>;

/// Calls `Regex::new`. Taken for granted: whether the pattern compiles
/// depends on the pattern text alone, and the compiled expression remembers
/// the text it was given.
#[verifier::external_body]
pub(crate) fn compile(pattern: &str) -> (r: Result<Regex, regex::Error>)
    ensures
        r is Ok <==> regex_compiles(pattern@),
        r matches Ok(regex) ==> regex_source(regex) == pattern@,
{
    Regex::new(pattern)
}

/// Calls `Regex::is_match`. Taken for granted: the answer depends only on
/// the pattern text of the expression and on the text searched. That holds of
/// an expression built by `Regex::new`, which is how `compile` builds every
/// expression that this library holds; it would not hold of one built with
/// other options.
#[verifier::external_body]
pub(crate) fn is_match(regex: &Regex, text: &str) -> (found: bool)
    ensures
        found == regex_is_match(regex_source(*regex), text@),
{
    regex.is_match(text)
}

/// Calls `Regex::replace` with a template string. Taken for granted: the
/// result depends only on the pattern text, the text searched and the
/// template, for an expression built by `Regex::new`.
#[verifier::external_body]
pub(crate) fn replace_first(regex: &Regex, text: &str, template: &str) -> (replaced: String)
    ensures
        replaced@ == regex_replace(regex_source(*regex), text@, template@),
{
    regex.replace(text, template).into_owned()
}

/// Calls `Regex::replace_all` with a template string. Taken for granted: the
/// result depends only on the pattern text, the text searched and the
/// template, for an expression built by `Regex::new`.
#[verifier::external_body]
pub(crate) fn replace_every(regex: &Regex, text: &str, template: &str) -> (replaced: String)
    ensures
        replaced@ == regex_replace_all(regex_source(*regex), text@, template@),
{
    regex.replace_all(text, template).into_owned()
}

} // verus!
