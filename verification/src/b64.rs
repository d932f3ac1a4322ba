//! Base64 embedding of balloon images: the URL-safe alphabet, without
//! padding characters, as the format prescribes.

use vstd::prelude::*;

verus! {

/// The URL-safe unpadded base64 rendering of the bytes `b`.
pub uninterp spec fn b64_enc(b: Seq<u8>) -> Seq<char>;

/// The bytes whose URL-safe unpadded base64 rendering is `s`, or `None`
/// where `s` is no such rendering.
pub uninterp spec fn b64_dec(s: Seq<char>) -> Option<Seq<u8>>;

/// A character of the URL-safe base64 alphabet.
pub open spec fn b64_char(c: char) -> bool {
    ('A' as u32 <= c as u32 && c as u32 <= 'Z' as u32) || ('a' as u32 <= c as u32 && c as u32
        <= 'z' as u32) || ('0' as u32 <= c as u32 && c as u32 <= '9' as u32) || c == '-' || c == '_'
}

/// What the encoder guarantees of the bytes it was handed: decoding its
/// rendering gives them back, and the rendering stays inside the URL-safe
/// alphabet. Every call of [`b64_encode`] establishes this of its input;
/// it stands as a premise where no such call is in sight.
pub open spec fn b64_round_trip(data: Seq<u8>) -> bool {
    &&& b64_dec(b64_enc(data)) == Some(data)
    &&& forall|i: int| 0 <= i < b64_enc(data).len() ==> b64_char(#[trigger] b64_enc(data)[i])
}

/// Relies on base64's `Engine::encode` with the `URL_SAFE_NO_PAD` engine:
/// it writes the input bytes over the URL-safe alphabet with no padding,
/// and `Engine::decode` of the same engine inverts it.
#[verifier::external_body]
pub(crate) fn b64_encode(b: &[u8]) -> (r: String)
    ensures
        r@ == b64_enc(b@),
        b64_dec(r@) == Some(b@),
        forall|i: int| 0 <= i < r@.len() ==> b64_char(#[trigger] r@[i]),
{
    base64::Engine::encode(&base64::engine::general_purpose::URL_SAFE_NO_PAD, b)
}

/// Relies on base64's `Engine::decode` with the `URL_SAFE_NO_PAD` engine:
/// it returns bytes exactly where the input is a valid unpadded URL-safe
/// rendering of them, and fails on every other input.
#[verifier::external_body]
pub(crate) fn b64_decode(s: &str) -> (r: Option<Vec<u8>>)
    ensures
        r is Some <==> b64_dec(s@) is Some,
        r is Some ==> Some(r.unwrap()@) == b64_dec(s@),
{
    match base64::Engine::decode(&base64::engine::general_purpose::URL_SAFE_NO_PAD, s) {
        Ok(v) => Some(v),
        Err(_) => None,
    }
}

} // verus!
