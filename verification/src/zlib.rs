//! Zlib compression of the XML form. The library only frames bytes here;
//! the compression itself is the outside collaborator's work.

use vstd::prelude::*;
use vstd::utf8::{decode_utf8, valid_utf8};

verus! {

/// The zlib stream that compressing `b` at best compression yields.
pub uninterp spec fn zlib_of(b: Seq<u8>) -> Seq<u8>;

/// The bytes read back from the zlib stream `b`, or `None` where `b` is
/// no well-formed stream.
pub uninterp spec fn unzlib_of(b: Seq<u8>) -> Option<Seq<u8>>;

/// What the compressor guarantees of the bytes it was handed:
/// decompressing its stream gives them back. Every call of
/// [`zlib_compress`] establishes this of its input; it stands as a
/// premise where no such call is in sight.
pub open spec fn zlib_round_trip(b: Seq<u8>) -> bool {
    unzlib_of(zlib_of(b)) == Some(b)
}

/// Relies on flate2's `ZlibEncoder` writing into a `Vec` at best
/// compression: the stream is a function of the input bytes alone, and
/// flate2's `ZlibDecoder` reads the input bytes back from it. Writing
/// into a `Vec` cannot fail.
#[verifier::external_body]
pub(crate) fn zlib_compress(b: &[u8]) -> (r: Vec<u8>)
    ensures
        r@ == zlib_of(b@),
        unzlib_of(r@) == Some(b@),
{
    let mut enc = flate2::write::ZlibEncoder::new(Vec::new(), flate2::Compression::best());
    let _ = std::io::Write::write_all(&mut enc, b);
    match enc.finish() {
        Ok(v) => v,
        Err(_) => Vec::new(),
    }
}

/// Relies on flate2's `ZlibDecoder` reading from a byte slice: it returns
/// the decompressed bytes exactly where the input is a well-formed zlib
/// stream, and fails on every other input.
#[verifier::external_body]
pub(crate) fn zlib_decompress(b: &[u8]) -> (r: Option<Vec<u8>>)
    ensures
        r is Some <==> unzlib_of(b@) is Some,
        r is Some ==> Some(r.unwrap()@) == unzlib_of(b@),
{
    let mut out = Vec::new();
    let mut dec = flate2::read::ZlibDecoder::new(b);
    match std::io::Read::read_to_end(&mut dec, &mut out) {
        Ok(_) => Some(out),
        Err(_) => None,
    }
}

/// Relies on `String::from_utf8`: it succeeds exactly on valid UTF-8 and
/// decodes it, as vstd's UTF-8 model states.
#[verifier::external_body]
pub(crate) fn string_from_utf8(b: Vec<u8>) -> (r: Option<String>)
    ensures
        r is Some <==> valid_utf8(b@),
        r is Some ==> r.unwrap()@ == decode_utf8(b@),
{
    String::from_utf8(b).ok()
}

} // verus!
