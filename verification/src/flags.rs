//! The two options of a match: replace every occurrence, and ignore case.

use crate::regex_calls::{compile, is_match, regex_compiles, regex_is_match};
use crate::text::contains_char;
use std::str::FromStr;
use vstd::prelude::*;

verus! {

/// The options that the user can switch on and off while editing. They are
/// independent of each other, and both are off at the start.
#[derive(Clone, Copy, Debug, PartialEq, Eq, Structural)]
pub struct MatchFlags {
    /// Replace every occurrence of the pattern, not only the first.
    pub global: bool,
    /// Match letters without regard to case.
    pub icase: bool,
}

/// The text that stands for a set of flags: `g` if every occurrence is
/// replaced, followed by `i` if case is ignored.
pub open spec fn flags_text(flags: MatchFlags) -> Seq<char> {
    let g = if flags.global { seq!['g'] } else { Seq::<char>::empty() };
    let i = if flags.icase { seq!['i'] } else { Seq::<char>::empty() };
    g + i
}

impl MatchFlags {
    /// No flag set.
    pub fn none() -> (flags: MatchFlags)
        ensures
            !flags.global,
            !flags.icase,
    {
        MatchFlags { global: false, icase: false }
    }

    /// Whether every occurrence is replaced.
    pub fn is_global(&self) -> (r: bool)
        ensures
            r == self.global,
    {
        self.global
    }

    /// Whether case is ignored.
    pub fn is_icase(&self) -> (r: bool)
        ensures
            r == self.icase,
    {
        self.icase
    }

    /// Flips the flag for replacing every occurrence and leaves the other.
    pub fn toggle_global(&mut self)
        ensures
            final(self).global == !old(self).global,
            final(self).icase == old(self).icase,
    {
        self.global = !self.global;
    }

    /// Flips the flag for ignoring case and leaves the other.
    pub fn toggle_icase(&mut self)
        ensures
            final(self).icase == !old(self).icase,
            final(self).global == old(self).global,
    {
        self.icase = !self.icase;
    }

    /// The flags as the user sees them: empty, `g`, `i` or `gi`.
    pub fn to_text(&self) -> (text: String)
        ensures
            text@ == flags_text(*self),
    {
        let mut text = String::new();
        if self.global {
            text.push('g');
        }
        if self.icase {
            text.push('i');
        }
        text
    }
}

/// The regular expression that a text of flags is held against.
pub open spec fn flags_pattern() -> Seq<char> {
    "[gi]{0,2}"@
}

/// Whether a text is taken for a set of flags: whether the regular
/// expression `[gi]{0,2}` finds a match in it. The expression is not tied to
/// the ends of the text.
pub open spec fn flags_accepted(text: Seq<char>) -> bool {
    regex_compiles(flags_pattern()) && regex_is_match(flags_pattern(), text)
}

/// The flags that a text names: each is set if its letter occurs.
pub open spec fn flags_of_text(text: Seq<char>) -> MatchFlags {
    MatchFlags { global: text.contains('g'), icase: text.contains('i') }
}

/// What is reported for a text that is not taken for a set of flags.
pub open spec fn flags_error_text(text: Seq<char>) -> Seq<char> {
    "invalid regex flags: '"@ + text + "'"@
}

/// The flags that `text` names if it was accepted, and the error if not.
pub fn flags_from_match(text: &str, accepted: bool) -> (r: Result<MatchFlags, String>)
    ensures
        match r {
            Ok(flags) => accepted && flags == flags_of_text(text@),
            Err(message) => !accepted && message@ == flags_error_text(text@),
        },
{
    if accepted {
        Ok(MatchFlags { global: contains_char(text, 'g'), icase: contains_char(text, 'i') })
    } else {
        let mut message = "invalid regex flags: '".to_owned();
        message.append(text);
        message.append("'");
        Err(message)
    }
}

impl MatchFlags {
    /// Reads a set of flags from a text such as `g`, `i` or `gi`.
    pub fn parse(text: &str) -> (r: Result<MatchFlags, String>)
        ensures
            match r {
                Ok(flags) => flags_accepted(text@) && flags == flags_of_text(text@),
                Err(message) => !flags_accepted(text@) && message@ == flags_error_text(text@),
            },
    {
        let accepted = match compile("[gi]{0,2}") {
            Ok(regex) => is_match(&regex, text),
            Err(_) => false,
        };
        flags_from_match(text, accepted)
    }
}

impl FromStr for MatchFlags {
    type Err = String;

    /// Reads a set of flags from a text, as `parse` does: the flags whose
    /// letters occur in an accepted text, and the error for any other.
    fn from_str(s: &str) -> (r: Result<MatchFlags, String>)
        ensures
            match r {
                Ok(flags) => flags_accepted(s@) && flags == flags_of_text(s@),
                Err(message) => !flags_accepted(s@) && message@ == flags_error_text(s@),
            },
    {
        MatchFlags::parse(s)
    }
}

impl Default for MatchFlags {
    fn default() -> (flags: MatchFlags)
        ensures
            !flags.global,
            !flags.icase,
    {
        MatchFlags::none()
    }
}

/// The text that stands for a set of flags names those flags again.
pub proof fn lemma_flags_text_round_trip(flags: MatchFlags)
    ensures
        flags_of_text(flags_text(flags)) == flags,
{
    let text = flags_text(flags);
    if flags.global {
        assert(text[0] == 'g');
    }
    if flags.icase {
        assert(text[text.len() - 1] == 'i');
    }
}

/// The text of a set of flags has at most two characters, and tells the flags
/// apart: two sets with the same text are the same set.
pub proof fn lemma_flags_text_injective(a: MatchFlags, b: MatchFlags)
    ensures
        flags_text(a).len() <= 2,
        flags_text(a) == flags_text(b) ==> a == b,
{
    let ta = flags_text(a);
    let tb = flags_text(b);
    if ta == tb {
        assert(ta.len() == tb.len());
        if ta.len() == 1 {
            assert(ta[0] == tb[0]);
        }
    }
}

} // verus!
