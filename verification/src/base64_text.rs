//! Base64 text, in the standard alphabet with padding.

use base64::Engine;
use vstd::prelude::*;

verus! {

/// The standard Base64 form of bytes.
pub uninterp spec fn base64_encoded(bytes: Seq<u8>) -> Seq<char>;

/// The bytes that a standard Base64 text stands for, or the message of the error that it raises.
pub uninterp spec fn base64_decoded(text: Seq<char>) -> Result<Seq<u8>, Seq<char>>;

/// A text is valid Base64, for the given bytes.
pub open spec fn decodes_to(text: Seq<char>, bytes: Seq<u8>) -> bool {
    base64_decoded(text) == Ok::<Seq<u8>, Seq<char>>(bytes)
}

/// `base64::Engine::encode` of the standard engine: the text depends on the bytes alone, and
/// decoding it gives the bytes back.
#[verifier::external_body]
pub(crate) fn encode(bytes: &[u8]) -> (r: String)
    ensures
        r@ == base64_encoded(bytes@),
        decodes_to(r@, bytes@),
{
    base64::engine::general_purpose::STANDARD.encode(bytes)
}

/// `base64::Engine::decode` of the standard engine: the outcome depends on the text alone. The
/// error is handed on as its message.
#[verifier::external_body]
pub(crate) fn decode(text: &str) -> (r: Result<Vec<u8>, String>)
    ensures
        match r {
            Ok(bytes) => base64_decoded(text@) matches Ok(d) && d == bytes@,
            Err(message) => base64_decoded(text@) matches Err(m) && m == message@,
        },
{
    base64::engine::general_purpose::STANDARD.decode(text).map_err(|e| e.to_string())
}

} // verus!
