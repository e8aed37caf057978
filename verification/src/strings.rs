//! The one bridge from raw bytes back to text that the library needs when
//! it reads names out of a champion binary.

use vstd::prelude::*;
use vstd::utf8::{decode_utf8, valid_utf8};

verus! {

/// Relies on `String::from_utf8_lossy`: on valid UTF-8 input it returns
/// the decoded text unchanged. It never panics; what it returns on invalid
/// input is not relied upon.
#[verifier::external_body]
pub fn string_from_bytes(bytes: &[u8]) -> (r: String)
    ensures
        valid_utf8(bytes@) ==> r@ == decode_utf8(bytes@),
{
    String::from_utf8_lossy(bytes).into_owned()
}

} // verus!
