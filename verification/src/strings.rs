//! What is taken on trust of the standard library's strings.

use vstd::prelude::*;

verus! {

/// `String::push` of std appends one character to the string. Assumed: the
/// string then holds what it held, and after it that character.
pub assume_specification[ String::push ](s: &mut String, c: char)
    ensures
        final(s)@ == old(s)@.push(c),
;

} // verus!
