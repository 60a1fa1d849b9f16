//! Text read out of raw bytes.

use vstd::prelude::*;
use vstd::utf8::*;

verus! {

/// The text that bytes are shown as when they need not be valid UTF-8: each
/// ill-formed stretch stands as a replacement character in it.
pub uninterp spec fn lossy_text(bytes: Seq<u8>) -> Seq<char>;

/// Decodes `bytes` as UTF-8.
///
/// Calls `std::str::from_utf8`. Trusted: the call succeeds exactly on
/// well-formed UTF-8, and the text it gives is what the bytes encode.
#[verifier::external_body]
pub(crate) fn utf8_text(bytes: &[u8]) -> (r: Option<String>)
    ensures
        r is Some <==> valid_utf8(bytes@),
        r matches Some(s) ==> s@ == decode_utf8(bytes@),
{
    match std::str::from_utf8(bytes) {
        Ok(s) => Some(s.to_owned()),
        Err(_) => None,
    }
}

/// Shows `bytes` as text, whatever they hold.
///
/// Calls `String::from_utf8_lossy`. Trusted: the text depends on the bytes
/// alone, and well-formed UTF-8 comes out as the text it encodes.
#[verifier::external_body]
pub(crate) fn lossy(bytes: &[u8]) -> (s: String)
    ensures
        s@ == lossy_text(bytes@),
        valid_utf8(bytes@) ==> s@ == decode_utf8(bytes@),
{
    String::from_utf8_lossy(bytes).into_owned()
}

} // verus!
