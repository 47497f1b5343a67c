//! What this library takes for granted of the text functions of std.

use vstd::prelude::*;
use vstd::utf8::is_scalar;

verus! {

/// `String::push` of std puts one character at the end of the text.
pub assume_specification[ String::push ](text: &mut String, c: char)
    ensures
        final(text)@ == old(text)@.push(c),
;

/// `char::from_u32` of std gives the character with the scalar value `i`, and
/// nothing where `i` is a surrogate or lies above `0x10FFFF`.
pub assume_specification[ char::from_u32 ](i: u32) -> (c: Option<char>)
    ensures
        is_scalar(i) ==> c == Some(i as char),
        !is_scalar(i) ==> c is None,
;

} // verus!
