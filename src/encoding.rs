use vstd::prelude::*;

verus! {

/// The standard, padded base64 text of `bytes`.
pub uninterp spec fn base64_encoding(bytes: Seq<u8>) -> Seq<char>;

/// The bytes that the standard, padded base64 text `text` stands for, if it is
/// well formed.
pub uninterp spec fn base64_decoding(text: Seq<char>) -> Option<Seq<u8>>;

/// Relies on `base64::encode` (standard alphabet, with padding): the result
/// depends on the bytes alone.
#[verifier::external_body]
pub(crate) fn encode_base64(bytes: &[u8]) -> (r: String)
    ensures
        r@ == base64_encoding(bytes@),
{
    base64::encode(bytes)
}

/// Relies on `base64::decode` (standard alphabet, with padding): the result
/// depends on the text alone, and text that `base64::encode` wrote decodes
/// back to the bytes it was written from.
#[verifier::external_body]
pub(crate) fn decode_base64(text: &str) -> (r: Option<Vec<u8>>)
    ensures
        r is Some <==> base64_decoding(text@) is Some,
        r matches Some(b) ==> base64_decoding(text@) == Some(b@),
        forall|b: Seq<u8>| text@ == base64_encoding(b) ==> r is Some && r->0@ == b,
{
    base64::decode(text).ok()
}

} // verus!
