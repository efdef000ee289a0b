use vstd::prelude::*;
use base64::Engine;

verus! {

/// What the standard base64 engine (`base64::engine::general_purpose::STANDARD`,
/// padded) writes for a byte string.
pub uninterp spec fn b64_encoded(bytes: Seq<u8>) -> Seq<char>;

/// What the standard base64 engine reads from a text: the bytes, or the
/// message of the `DecodeError` it reports.
pub uninterp spec fn b64_decoded(s: Seq<char>) -> Result<Seq<u8>, Seq<char>>;

/// `STANDARD.encode`. Decoding the result gives the bytes back. The
/// length computation inside cannot overflow: no slice holds more than
/// `isize::MAX` bytes.
#[verifier::external_body]
pub(crate) fn b64_encode(bytes: &[u8]) -> (r: String)
    ensures
        r@ == b64_encoded(bytes@),
        (b64_decoded(r@) == Ok::<Seq<u8>, Seq<char>>(bytes@)),
{
    base64::engine::general_purpose::STANDARD.encode(bytes)
}

/// `STANDARD.decode`: the bytes that the text encodes, or the message of
/// the decoding error.
#[verifier::external_body]
pub(crate) fn b64_decode(s: &str) -> (r: Result<Vec<u8>, String>)
    ensures
        match r {
            Ok(v) => b64_decoded(s@) == Ok::<Seq<u8>, Seq<char>>(v@),
            Err(m) => b64_decoded(s@) == Err::<Seq<u8>, Seq<char>>(m@),
        },
{
    base64::engine::general_purpose::STANDARD.decode(s).map_err(|e| e.to_string())
}

} // verus!
