//! UTF-8 checks on byte runs read back from records.
use vstd::prelude::*;
use vstd::utf8::valid_utf8;

verus! {

/// What `String::from_utf8_lossy` makes of `b`: every invalid sequence
/// replaced by U+FFFD.
pub uninterp spec fn utf8_lossy(b: Seq<u8>) -> Seq<u8>;

/// Calls `std::str::from_utf8` and reports whether it accepted `b`.
///
/// Trusted: the result is taken to be exactly `valid_utf8(b)`, the UTF-8
/// well-formedness that the standard library documents for `from_utf8`.
#[verifier::external_body]
pub(crate) fn is_utf8(b: &[u8]) -> (r: bool)
    ensures
        r == valid_utf8(b@),
{
    std::str::from_utf8(b).is_ok()
}

/// Calls `String::from_utf8_lossy` and returns the bytes of the string.
///
/// Trusted: the result is the named [`utf8_lossy`] of the input, is itself
/// valid UTF-8, and is the input unchanged when the input is valid UTF-8
/// (the documentation says valid input is borrowed as is). How invalid
/// sequences are replaced is left unsaid.
#[verifier::external_body]
pub(crate) fn lossy(b: &[u8]) -> (r: Vec<u8>)
    ensures
        r@ == utf8_lossy(b@),
        valid_utf8(r@),
        valid_utf8(b@) ==> r@ == b@,
{
    String::from_utf8_lossy(b).into_owned().into_bytes()
}

} // verus!
