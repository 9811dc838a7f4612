//! Conversion from computed ASCII bytes to owned text.

use vstd::prelude::*;
use vstd::utf8::encode_utf8;

verus! {

/// Relies on `String::from_utf8`: ASCII bytes convert without copying, so the
/// resulting text is character-for-character the given bytes and its UTF-8
/// image is exactly them.
#[verifier::external_body]
pub fn ascii_to_string(v: Vec<u8>) -> (r: String)
    requires
        forall|i: int| 0 <= i < v@.len() ==> v@[i] < 128,
    ensures
        r@ == v@.map_values(|b: u8| b as char),
        encode_utf8(r@) == v@,
{
    String::from_utf8(v).unwrap()
}

} // verus!
