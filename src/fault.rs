//! The message of a deliberate fault, decoded from foreign bytes.

use vstd::prelude::*;

verus! {

/// The text that lossy UTF-8 decoding makes of some bytes.
pub uninterp spec fn lossy_utf8_of(b: Seq<u8>) -> Seq<char>;

/// Bytes below 0x80: valid UTF-8, one character each.
pub open spec fn is_ascii_bytes(b: Seq<u8>) -> bool {
    forall|i: int| 0 <= i < b.len() ==> b[i] < 0x80
}

/// Relies on `String::from_utf8_lossy`: valid UTF-8 comes back unchanged, so
/// ASCII bytes become the same characters; invalid sequences become U+FFFD.
#[verifier::external_body]
fn decode_lossy(b: &[u8]) -> (r: String)
    ensures
        r@ == lossy_utf8_of(b@),
        is_ascii_bytes(b@) ==> r@ == b@.map_values(|x: u8| x as char),
{
    String::from_utf8_lossy(b).into_owned()
}

/// The message that a deliberate fault carries for `message`, decoded lossily
/// so that invalid input still gives a readable text.
pub fn panic_message(message: &[u8]) -> (r: String)
    ensures
        r@ == lossy_utf8_of(message@),
        is_ascii_bytes(message@) ==> r@ == message@.map_values(|x: u8| x as char),
{
    decode_lossy(message)
}

} // verus!
