//! What this library assumes of the standard string type.

use vstd::prelude::*;

verus! {

/// `String::push` appends the given character to the end of the string and
/// leaves every earlier character in place.
pub assume_specification[ String::push ](s: &mut String, c: char)
    ensures
        final(s)@ == old(s)@.push(c),
;

} // verus!
