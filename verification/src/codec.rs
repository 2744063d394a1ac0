//! Base64 as the data channel uses it: the standard alphabet, with padding.

use crate::json::plain_text;
use vstd::prelude::*;

verus! {

/// The bytes that a base64 text stands for, or the words of the decoder's error.
pub uninterp spec fn base64_decoded(text: Seq<char>) -> Result<Seq<u8>, Seq<char>>;

/// The base64 text of a byte string.
pub uninterp spec fn base64_encoded(bytes: Seq<u8>) -> Seq<char>;

/// Decodes base64 with the `base64` crate's `STANDARD.decode`. The result is
/// named [`base64_decoded`].
#[verifier::external_body]
pub(crate) fn decode_base64(text: &str) -> (result: Result<Vec<u8>, String>)
    ensures
        match result {
            Ok(bytes) => base64_decoded(text@) == Ok::<Seq<u8>, Seq<char>>(bytes@),
            Err(words) => base64_decoded(text@) == Err::<Seq<u8>, Seq<char>>(words@),
        },
{
    base64::Engine::decode(&base64::engine::general_purpose::STANDARD, text)
        .map_err(|error| error.to_string())
}

/// Encodes bytes with the `base64` crate's `STANDARD.encode`. The result is
/// named [`base64_encoded`]. Besides, four characters stand for each three
/// bytes begun, none of them is one that JSON escapes, and decoding gives the
/// bytes back.
#[verifier::external_body]
pub(crate) fn encode_base64(bytes: &[u8]) -> (text: String)
    requires
        bytes@.len() <= 0x1000_0000,
    ensures
        text@ == base64_encoded(bytes@),
        text@.len() == (bytes@.len() + 2) / 3 * 4,
        plain_text(text@),
        (base64_decoded(text@) == Ok::<Seq<u8>, Seq<char>>(bytes@)),
{
    base64::Engine::encode(&base64::engine::general_purpose::STANDARD, bytes)
}

} // verus!
