//! Moving between strings and sequences of characters.

use vstd::prelude::*;

verus! {

/// `String::push` of the standard library appends one character and leaves
/// the characters before it as they were.
pub assume_specification[ String::push ](s: &mut String, c: char)
    ensures
        final(s)@ == old(s)@.push(c),
;

/// `String::pop` of the standard library removes the last character and
/// returns it, or returns `None` and changes nothing when the string is
/// empty.
pub assume_specification[ String::pop ](s: &mut String) -> (r: Option<char>)
    ensures
        old(s)@.len() == 0 ==> r is None && final(s)@ == old(s)@,
        old(s)@.len() > 0 ==> r == Some(old(s)@.last()) && final(s)@ == old(s)@.drop_last(),
;

/// The characters of a string, in order.
pub fn chars_of(s: &str) -> (chars: Vec<char>)
    ensures
        chars@ == s@,
{
    let mut chars: Vec<char> = Vec::new();
    for c in it: s.chars()
        invariant
            chars@ == s@.take(it.index() as int),
            it.seq() == s@,
    {
        chars.push(c);
    }
    chars
}

/// Whether the character `c` occurs in `s`.
pub fn contains_char(s: &str, c: char) -> (found: bool)
    ensures
        found == s@.contains(c),
{
    let mut found = false;
    for x in it: s.chars()
        invariant
            it.seq() == s@,
            found == s@.take(it.index() as int).contains(c),
    {
        proof {
            let before = s@.take(it.index() as int);
            let after = s@.take(it.index() as int + 1);
            assert(after == before.push(x));
            assert(after.contains(c) <==> before.contains(c) || x == c) by {
                if before.contains(c) {
                    let k = choose|k: int| 0 <= k < before.len() && before[k] == c;
                    assert(after[k] == c);
                }
                if x == c {
                    assert(after[after.len() - 1] == c);
                }
            }
        }
        if x == c {
            found = true;
        }
    }
    assert(s@.take(s@.len() as int) == s@);
    found
}

} // verus!
