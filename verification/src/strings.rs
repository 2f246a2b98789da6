//! Strings as sequences of characters.

use vstd::prelude::*;

verus! {

/// Trusted: `String::push` of the standard library appends the character to
/// the end of the string.
pub assume_specification[ std::string::String::push ](s: &mut std::string::String, c: char)
    ensures
        final(s)@ == old(s)@.push(c),
;

/// The characters of a string, in order.
pub fn chars_of(s: &str) -> (chars: Vec<char>)
    ensures
        chars@ == s@,
{
    let mut chars: Vec<char> = Vec::new();
    for c in it: s.chars()
        invariant
            it.seq() == s@,
            chars@ == s@.take(it.index() as int),
    {
        chars.push(c);
        assert(s@.take(it.index() + 1) == s@.take(it.index() as int).push(c));
    }
    assert(s@.take(s@.len() as int) == s@);
    chars
}

/// A string without its first character.
pub fn without_first(s: &str) -> (rest: String)
    requires
        s@.len() > 0,
    ensures
        rest@ == s@.drop_first(),
{
    let mut rest = String::new();
    let mut first = true;
    for c in it: s.chars()
        invariant
            it.seq() == s@,
            first == (it.index() == 0),
            !first ==> rest@ == s@.subrange(1, it.index() as int),
            first ==> rest@ == Seq::<char>::empty(),
    {
        if first {
            first = false;
            assert(s@.subrange(1, 1) == Seq::<char>::empty());
        } else {
            rest.push(c);
            assert(s@.subrange(1, it.index() + 1) == s@.subrange(1, it.index() as int).push(c));
        }
    }
    rest
}

} // verus!
