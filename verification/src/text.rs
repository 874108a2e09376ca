//! Conversions between strings and sequences of characters.

use vstd::prelude::*;

verus! {

/// Decodes a string slice into its characters, in order.
pub fn chars_of(s: &str) -> (chars: Vec<char>)
    ensures
        chars@ == s@,
{
    let mut chars: Vec<char> = Vec::new();
    for c in it: s.chars()
        invariant
            it.seq() == s@,
            chars@ == it.seq().take(it.index()),
    {
        chars.push(c);
    }
    chars
}

/// Builds the string that holds exactly the characters `chars`, in order.
///
/// Trusted: this is `String::from_iter` of std on the slice's characters,
/// which collects them into a string one after another.
#[verifier::external_body]
pub(crate) fn string_of(chars: &[char]) -> (s: String)
    ensures
        s@ == chars@,
{
    String::from_iter(chars)
}

/// Appends one character to a string.
///
/// Trusted: this is `String::push` of std, which appends the given character
/// to the end of the string.
#[verifier::external_body]
pub(crate) fn push_char(s: &mut String, c: char)
    ensures
        final(s)@ == old(s)@.push(c),
{
    s.push(c);
}

/// Takes the last character off a string, if it has one.
///
/// Trusted: this is `String::pop` of std, which removes the last character
/// and leaves an empty string as it is.
#[verifier::external_body]
pub(crate) fn pop_char(s: &mut String)
    ensures
        final(s)@ == if old(s)@.len() > 0 {
            old(s)@.drop_last()
        } else {
            old(s)@
        },
{
    s.pop();
}

} // verus!
