//! The functions of `std` that the adapter relies on and whose behaviour is taken on trust.
use vstd::prelude::*;

verus! {

/// `char::from_u32`: the character with code point `i`, and `None` exactly where `i` is no
/// Unicode scalar value, that is, a surrogate or a number above `0x10FFFF`.
pub assume_specification[ char::from_u32 ](i: u32) -> (r: Option<char>)
    ensures
        (r is Some) == (i < 0xD800 || 0xE000 <= i <= 0x10FFFF),
        r matches Some(c) ==> c as u32 == i,
;

/// `String::push`: appends one character to the end of the string.
pub assume_specification[ String::push ](s: &mut String, ch: char)
    ensures
        final(s)@ == old(s)@.push(ch),
;

/// The lower case of a text, by the Unicode case mappings that `str::to_lowercase` applies.
pub uninterp spec fn lowercase(text: Seq<char>) -> Seq<char>;

/// `str::to_lowercase`: the lower case of the text, which depends on the text alone; that of
/// the empty text is empty.
#[verifier::external_body]
pub(crate) fn to_lowercase(text: &str) -> (lower: String)
    ensures
        lower@ == lowercase(text@),
        text@.len() == 0 ==> lower@.len() == 0,
{
    text.to_lowercase()
}

} // verus!
