//! What the scanner takes on trust from the standard library.

use vstd::prelude::*;

verus! {

/// Whether `c` counts as a digit. This is the answer of `char::is_numeric`,
/// which looks the character up in the Unicode tables of the number
/// categories; nothing is stated here about which characters those are.
pub uninterp spec fn numeric(c: char) -> bool;

/// `char::is_numeric`: believed, not proved, to depend on the character alone,
/// so that its answer can be called [`numeric`].
pub assume_specification[ char::is_numeric ](c: char) -> (r: bool)
    ensures
        r == numeric(c),
;

/// `String::push`: believed, not proved, to append `ch` at the end of the
/// string and to leave the characters before it as they were.
pub assume_specification[ String::push ](s: &mut String, ch: char)
    ensures
        final(s)@ == old(s)@.push(ch),
;

} // verus!
