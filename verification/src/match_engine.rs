//! Compiling a pattern with its flags, and classifying what a replacement
//! does to one file name.

use crate::flags::MatchFlags;
use crate::regex_calls::{
    compile, is_match, regex_compiles, regex_is_match, regex_replace, regex_replace_all,
    regex_source, replace_every, replace_first,
};
use regex::Regex;
use vstd::prelude::*;

verus! {

/// The opening of a group that ignores case.
pub open spec fn icase_prefix() -> Seq<char> {
    seq!['(', '?', 'i', ':']
}

/// The closing of a group.
pub open spec fn icase_suffix() -> Seq<char> {
    seq![')']
}

/// The text that is handed to the regular expression compiler for a pattern:
/// the pattern itself, or, where case is ignored, the pattern inside a group
/// that ignores case.
pub open spec fn effective_source(pattern: Seq<char>, icase: bool) -> Seq<char> {
    if icase {
        icase_prefix() + pattern + icase_suffix()
    } else {
        pattern
    }
}

/// What a compiled matcher stands for: the pattern as the user typed it, and
/// whether case is ignored.
pub struct MatcherView {
    pub pattern: Seq<char>,
    pub icase: bool,
}

impl MatcherView {
    /// The text that the matcher was compiled from.
    pub open spec fn source(self) -> Seq<char> {
        effective_source(self.pattern, self.icase)
    }
}

/// A pattern that compiled, together with the compiled form.
pub struct CompiledMatcher {
    pattern: String,
    icase: bool,
    regex: Regex,
}

impl View for CompiledMatcher {
    type V = MatcherView;

    closed spec fn view(&self) -> MatcherView {
        MatcherView { pattern: self.pattern@, icase: self.icase }
    }
}

impl DeepView for CompiledMatcher {
    type V = MatcherView;

    open spec fn deep_view(&self) -> MatcherView {
        self@
    }
}

impl CompiledMatcher {
    /// The compiled form belongs to the pattern and the flag held beside it.
    #[verifier::type_invariant]
    closed spec fn well_formed(&self) -> bool {
        regex_source(self.regex) == effective_source(self.pattern@, self.icase)
    }

    /// The pattern as the user typed it.
    pub fn pattern(&self) -> (r: &str)
        ensures
            r@ == self@.pattern,
    {
        self.pattern.as_str()
    }

    /// Whether the matcher ignores case.
    pub fn ignores_case(&self) -> (r: bool)
        ensures
            r == self@.icase,
    {
        self.icase
    }
}

/// The matcher that a pattern and its flags give: none if the pattern is no
/// valid regular expression by itself, and none if the text that is compiled
/// for it is not.
pub open spec fn compose_spec(pattern: Seq<char>, flags: MatchFlags) -> Option<MatcherView> {
    if regex_compiles(pattern) && regex_compiles(effective_source(pattern, flags.icase)) {
        Some(MatcherView { pattern, icase: flags.icase })
    } else {
        None
    }
}

/// Writes out the text that is compiled for `pattern`.
pub fn effective_source_text(pattern: &str, icase: bool) -> (source: String)
    ensures
        source@ == effective_source(pattern@, icase),
{
    if icase {
        let mut source = String::new();
        source.push('(');
        source.push('?');
        source.push('i');
        source.push(':');
        source.append(pattern);
        source.push(')');
        assert(source@ == icase_prefix() + pattern@ + icase_suffix());
        source
    } else {
        pattern.to_owned()
    }
}

/// Compiles `pattern` under `flags`. The pattern is judged by itself first:
/// one that is no valid regular expression gives `None`, never a failure,
/// whatever the flags. Where case is to be ignored, the pattern is then
/// compiled inside a group that ignores case, so that the flag holds for the
/// whole of it; a pattern that is valid by itself and not inside that group
/// (one that ends in a comment of the extended syntax) gives `None` too. The
/// flag for replacing every occurrence plays no part here.
pub fn compose(pattern: &str, flags: MatchFlags) -> (matcher: Option<CompiledMatcher>)
    ensures
        matcher.deep_view() == compose_spec(pattern@, flags),
{
    match compile(pattern) {
        Err(_) => None,
        Ok(plain) => {
            if flags.icase {
                let source = effective_source_text(pattern, true);
                match compile(source.as_str()) {
                    Ok(regex) => Some(
                        CompiledMatcher { pattern: pattern.to_owned(), icase: true, regex },
                    ),
                    Err(_) => None,
                }
            } else {
                Some(CompiledMatcher { pattern: pattern.to_owned(), icase: false, regex: plain })
            }
        },
    }
}

/// What applying a matcher and a template does to one file name.
#[derive(Debug, PartialEq, Eq)]
pub enum ReplacementOutcome {
    /// The pattern did not compile.
    InvalidPattern,
    /// The pattern is the empty string. It would match everywhere, so it is
    /// kept apart from a pattern that matches.
    EmptyPattern,
    /// The pattern does not occur in the name.
    NoMatch,
    /// The pattern occurs, and the replacement gives the same name again.
    Unchanged,
    /// The pattern occurs, and the replacement gives this new name.
    Replaced(String),
}

/// A `ReplacementOutcome` with the new name as a sequence of characters.
pub enum OutcomeView {
    InvalidPattern,
    EmptyPattern,
    NoMatch,
    Unchanged,
    Replaced(Seq<char>),
}

impl View for ReplacementOutcome {
    type V = OutcomeView;

    open spec fn view(&self) -> OutcomeView {
        match self {
            ReplacementOutcome::InvalidPattern => OutcomeView::InvalidPattern,
            ReplacementOutcome::EmptyPattern => OutcomeView::EmptyPattern,
            ReplacementOutcome::NoMatch => OutcomeView::NoMatch,
            ReplacementOutcome::Unchanged => OutcomeView::Unchanged,
            ReplacementOutcome::Replaced(name) => OutcomeView::Replaced(name@),
        }
    }
}

impl Clone for ReplacementOutcome {
    fn clone(&self) -> (copy: ReplacementOutcome)
        ensures
            copy@ == self@,
    {
        match self {
            ReplacementOutcome::InvalidPattern => ReplacementOutcome::InvalidPattern,
            ReplacementOutcome::EmptyPattern => ReplacementOutcome::EmptyPattern,
            ReplacementOutcome::NoMatch => ReplacementOutcome::NoMatch,
            ReplacementOutcome::Unchanged => ReplacementOutcome::Unchanged,
            ReplacementOutcome::Replaced(name) => ReplacementOutcome::Replaced(name.clone()),
        }
    }
}

impl DeepView for ReplacementOutcome {
    type V = OutcomeView;

    open spec fn deep_view(&self) -> OutcomeView {
        self@
    }
}

/// One pass of the replacement over `text`: over every match if `global` is
/// set, over the first match only if not.
pub open spec fn substitute(
    source: Seq<char>,
    text: Seq<char>,
    template: Seq<char>,
    global: bool,
) -> Seq<char> {
    if global {
        regex_replace_all(source, text, template)
    } else {
        regex_replace(source, text, template)
    }
}

/// The outcome for a name in which the pattern occurs, given what the
/// replacement made of it.
pub open spec fn outcome_of_substitution(text: Seq<char>, substituted: Seq<char>) -> OutcomeView {
    if substituted == text {
        OutcomeView::Unchanged
    } else {
        OutcomeView::Replaced(substituted)
    }
}

/// The outcome for `filename`. The order of the tests matters: an absent
/// matcher first, then the empty pattern, then whether the pattern occurs at
/// all, and only then the replacement.
pub open spec fn classify_spec(
    filename: Seq<char>,
    matcher: Option<MatcherView>,
    template: Seq<char>,
    global: bool,
) -> OutcomeView {
    match matcher {
        None => OutcomeView::InvalidPattern,
        Some(m) => {
            if m.pattern.len() == 0 {
                OutcomeView::EmptyPattern
            } else if !regex_is_match(m.source(), filename) {
                OutcomeView::NoMatch
            } else {
                outcome_of_substitution(filename, substitute(m.source(), filename, template, global))
            }
        },
    }
}

/// The outcome for a name and a matcher that exists, from what was found
/// out about them: whether the pattern is empty, whether it occurs in the
/// name, and what the replacement made of the name. The tests come in this
/// order, and each is decided before the next is looked at. Where no
/// replacement was made, the name is as it was.
pub open spec fn outcome_of_results(
    text: Seq<char>,
    pattern_is_empty: bool,
    matched: bool,
    substituted: Option<Seq<char>>,
) -> OutcomeView {
    if pattern_is_empty {
        OutcomeView::EmptyPattern
    } else if !matched {
        OutcomeView::NoMatch
    } else {
        match substituted {
            Some(name) => outcome_of_substitution(text, name),
            None => OutcomeView::Unchanged,
        }
    }
}

/// Decides between `Unchanged` and `Replaced` for a name in which the
/// pattern occurs: `substituted` is what the replacement made of `text`.
pub fn decide_outcome(text: &str, substituted: String) -> (outcome: ReplacementOutcome)
    ensures
        outcome@ == outcome_of_substitution(text@, substituted@),
{
    let given = text.to_owned();
    if substituted == given {
        ReplacementOutcome::Unchanged
    } else {
        ReplacementOutcome::Replaced(substituted)
    }
}

/// Decides the outcome for the name `text` and a matcher that exists:
/// `EmptyPattern` if the pattern is empty, whatever else is handed in; else
/// `NoMatch` if the pattern does not occur; else `Unchanged` or `Replaced`,
/// by what the replacement made of the name.
pub fn outcome_from_results(
    text: &str,
    pattern_is_empty: bool,
    matched: bool,
    substituted: Option<String>,
) -> (outcome: ReplacementOutcome)
    ensures
        outcome@ == outcome_of_results(
            text@,
            pattern_is_empty,
            matched,
            substituted.deep_view(),
        ),
{
    if pattern_is_empty {
        ReplacementOutcome::EmptyPattern
    } else if !matched {
        ReplacementOutcome::NoMatch
    } else {
        match substituted {
            Some(name) => decide_outcome(text, name),
            None => ReplacementOutcome::Unchanged,
        }
    }
}

/// Classifies the effect of `matcher` and `template` on `filename`. With
/// `global` set every occurrence of the pattern is replaced, from left to
/// right; without it only the first. The replacement is applied once: the
/// new name is not searched again. The outcome depends on the four arguments
/// alone, and of the matcher only on its pattern and on whether it ignores
/// case.
pub fn classify(
    filename: &str,
    matcher: &Option<CompiledMatcher>,
    template: &str,
    global: bool,
) -> (outcome: ReplacementOutcome)
    ensures
        outcome@ == classify_spec(filename@, matcher.deep_view(), template@, global),
{
    match matcher {
        None => ReplacementOutcome::InvalidPattern,
        Some(m) => {
            proof {
                use_type_invariant(m);
            }
            let pattern_is_empty = m.pattern.as_str().is_empty();
            let matched = !pattern_is_empty && is_match(&m.regex, filename);
            let substituted = if !matched {
                None
            } else if global {
                Some(replace_every(&m.regex, filename, template))
            } else {
                Some(replace_first(&m.regex, filename, template))
            };
            outcome_from_results(filename, pattern_is_empty, matched, substituted)
        },
    }
}

/// Whether every occurrence is replaced plays no part in compiling: two
/// sets of flags that agree on ignoring case give the same matcher.
pub proof fn lemma_compose_ignores_global(pattern: Seq<char>, a: MatchFlags, b: MatchFlags)
    requires
        a.icase == b.icase,
    ensures
        compose_spec(pattern, a) == compose_spec(pattern, b),
{
}

/// A matcher exists exactly for a pattern that compiles by itself and in
/// the form in which it is compiled, and it is the matcher of that pattern
/// and of the flag for ignoring case.
pub proof fn lemma_compose_some(pattern: Seq<char>, flags: MatchFlags)
    ensures
        compose_spec(pattern, flags) is Some <==> regex_compiles(pattern) && regex_compiles(
            effective_source(pattern, flags.icase),
        ),
        compose_spec(pattern, flags) matches Some(m) ==> m.pattern == pattern && m.icase
            == flags.icase,
        !flags.icase ==> (compose_spec(pattern, flags) is Some <==> regex_compiles(pattern)),
{
}

/// A pattern that does not compile gives `InvalidPattern` for every file
/// name and every template, under every set of flags.
pub proof fn lemma_invalid_pattern(
    pattern: Seq<char>,
    flags: MatchFlags,
    filename: Seq<char>,
    template: Seq<char>,
    global: bool,
)
    requires
        !regex_compiles(pattern),
    ensures
        compose_spec(pattern, flags) is None,
        classify_spec(filename, compose_spec(pattern, flags), template, global)
            == OutcomeView::InvalidPattern,
{
}

/// A matcher for the empty pattern gives `EmptyPattern` for every file name,
/// whatever the template and the flags.
pub proof fn lemma_empty_pattern(
    matcher: MatcherView,
    filename: Seq<char>,
    template: Seq<char>,
    global: bool,
)
    requires
        matcher.pattern.len() == 0,
    ensures
        classify_spec(filename, Some(matcher), template, global) == OutcomeView::EmptyPattern,
{
}

/// A pattern that is not empty and does not occur in the file name gives
/// `NoMatch`, whatever the template.
pub proof fn lemma_no_match(
    matcher: MatcherView,
    filename: Seq<char>,
    template: Seq<char>,
    global: bool,
)
    requires
        matcher.pattern.len() > 0,
        !regex_is_match(matcher.source(), filename),
    ensures
        classify_spec(filename, Some(matcher), template, global) == OutcomeView::NoMatch,
{
}

/// A new name is the result of exactly one pass of the replacement over the
/// old name, and differs from it. Nothing is applied a second time: what the
/// same matcher and template make of the new name is a separate
/// classification, which starts from the new name alone.
pub proof fn lemma_single_pass(
    filename: Seq<char>,
    matcher: Option<MatcherView>,
    template: Seq<char>,
    global: bool,
    new_name: Seq<char>,
)
    requires
        classify_spec(filename, matcher, template, global) == OutcomeView::Replaced(new_name),
    ensures
        matcher is Some,
        new_name == substitute(matcher->0.source(), filename, template, global),
        new_name != filename,
        regex_is_match(matcher->0.source(), filename),
        classify_spec(new_name, matcher, template, global) == if !regex_is_match(
            matcher->0.source(),
            new_name,
        ) {
            OutcomeView::NoMatch
        } else {
            outcome_of_substitution(
                new_name,
                substitute(matcher->0.source(), new_name, template, global),
            )
        },
{
}

/// The outcome is `Unchanged` exactly when the pattern occurs and the
/// replacement gives the name back, character for character.
pub proof fn lemma_unchanged(
    filename: Seq<char>,
    matcher: Option<MatcherView>,
    template: Seq<char>,
    global: bool,
)
    ensures
        classify_spec(filename, matcher, template, global) == OutcomeView::Unchanged <==> {
            &&& matcher matches Some(m)
            &&& m.pattern.len() > 0
            &&& regex_is_match(m.source(), filename)
            &&& substitute(m.source(), filename, template, global) == filename
        },
{
}

} // verus!
