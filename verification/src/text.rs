//! Text as bytes.

use vstd::prelude::*;
use vstd::utf8::{encode_utf8, valid_utf8};

verus! {

/// Read `bytes` as text, through `std::str::from_utf8`.
///
/// Not proved here, taken from the documentation of the standard library:
/// the call succeeds exactly when `bytes` are valid UTF-8, and the text it
/// then returns is those same bytes, so its characters encode to them.
#[verifier::external_body]
pub(crate) fn str_from_utf8(bytes: &[u8]) -> (text: Option<&str>)
    ensures
        text is Some <==> valid_utf8(bytes@),
        text is Some ==> encode_utf8(text->0@) == bytes@,
{
    match std::str::from_utf8(bytes) {
        Ok(text) => Some(text),
        Err(_) => None,
    }
}

} // verus!
