//! Conversions between strings and the character vectors that the rest of
//! the crate works on.

use vstd::prelude::*;

verus! {

/// Contract assumed of `String::push` of the standard library, which is taken
/// on trust: the call appends `ch` to the end of the string and leaves the
/// characters before it as they were.
pub assume_specification[ String::push ](s: &mut String, ch: char)
    ensures
        final(s)@ == old(s)@.push(ch),
;

/// Collects the characters of `s` into a vector.
pub fn to_chars(s: &str) -> (chars: Vec<char>)
    ensures
        chars@ == s@,
{
    let mut chars: Vec<char> = Vec::new();
    for c in it: s.chars()
        invariant
            it.seq() == s@,
            chars@ == s@.take(it.index() as int),
    {
        chars.push(c);
    }
    chars
}

/// Appends the characters of `chars` to `target`.
pub fn push_chars(target: &mut String, chars: &Vec<char>)
    ensures
        final(target)@ == old(target)@ + chars@,
{
    let mut i: usize = 0;
    while i < chars.len()
        invariant
            i <= chars.len(),
            target@ == old(target)@ + chars@.take(i as int),
        decreases chars.len() - i,
    {
        target.push(chars[i]);
        i += 1;
    }
}

/// Builds a string that holds exactly the characters of `chars`.
pub fn from_chars(chars: &Vec<char>) -> (s: String)
    ensures
        s@ == chars@,
{
    let mut s = String::new();
    push_chars(&mut s, chars);
    s
}

} // verus!
