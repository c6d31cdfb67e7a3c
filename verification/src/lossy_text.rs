//! Text out of raw bytes.
use vstd::prelude::*;
use vstd::string::*;
use vstd::utf8::*;

use crate::text::optional_text;

verus! {

/// What `String::from_utf8_lossy` makes of some bytes.
pub uninterp spec fn lossy(bytes: Seq<u8>) -> Seq<char>;

/// `String::from_utf8_lossy` of the standard library: bytes that are valid UTF-8 are decoded as
/// they stand, and every invalid sequence is replaced, so that something is left of any bytes.
/// What replaces it has only a name here.
#[verifier::external_body]
pub(crate) fn lossy_text(bytes: &[u8]) -> (result: String)
    ensures
        result@ == lossy(bytes@),
        valid_utf8(bytes@) ==> result@ == decode_utf8(bytes@),
        bytes@.len() > 0 ==> result@.len() > 0,
{
    String::from_utf8_lossy(bytes).into_owned()
}

/// `std::str::from_utf8` of the standard library: text is given back for exactly the valid
/// UTF-8, and it is what the bytes encode.
#[verifier::external_body]
pub(crate) fn exact_text(bytes: &[u8]) -> (result: Option<String>)
    ensures
        optional_text(result) == exact(bytes@),
{
    match std::str::from_utf8(bytes) {
        Ok(text) => Some(text.to_owned()),
        Err(_) => None,
    }
}

/// The text that bytes encode, where they are valid UTF-8.
pub open spec fn exact(bytes: Seq<u8>) -> Option<Seq<char>> {
    if valid_utf8(bytes) {
        Some(decode_utf8(bytes))
    } else {
        None
    }
}

} // verus!
