//! The zlib step, done by `flate2`.
//!
//! Four of the five pixel formats wrap their payload in a zlib stream. The
//! inflating and deflating is `flate2`'s; this module holds the two trusted
//! calls into it and names what they return.

use vstd::prelude::*;

use std::io::Read;
use std::io::Write;

verus! {

/// What `flate2`'s zlib decoder yields from `payload` when reading stops after
/// `limit` bytes: the bytes read, or `None` when the stream is not valid zlib
/// before that point.
pub uninterp spec fn zlib_inflate_limited(payload: Seq<u8>, limit: nat) -> Option<Seq<u8>>;

/// What `flate2`'s encoder at its default level makes of `data`: the zlib
/// stream, or `None` when the compressor reports an internal error.
pub uninterp spec fn zlib_deflate(data: Seq<u8>) -> Option<Seq<u8>>;

/// Inflate `payload` with `flate2::read::ZlibDecoder`, reading at most `limit`
/// bytes through `std::io::Read::take`.
///
/// Trusted: the result is `flate2`'s, named by [`zlib_inflate_limited`]; the
/// only fact stated of it is the one `take` documents, that no more than
/// `limit` bytes come back. The error's text is left unsaid.
#[verifier::external_body]
pub fn zlib_read_limited(payload: &[u8], limit: u64) -> (r: Result<Vec<u8>, String>)
    ensures
        r matches Ok(v) ==> zlib_inflate_limited(payload@, limit as nat) == Some(v@) && v@.len()
            <= limit,
        r is Err ==> zlib_inflate_limited(payload@, limit as nat) is None,
{
    let mut out = Vec::new();
    match flate2::read::ZlibDecoder::new(payload).take(limit).read_to_end(&mut out) {
        Ok(_) => Ok(out),
        Err(e) => Err(e.to_string()),
    }
}

/// Compress `data` with `flate2::write::ZlibEncoder` at
/// `flate2::Compression::default()`.
///
/// Trusted: the whole outcome is `flate2`'s, a function of `data` alone, named
/// by [`zlib_deflate`]: the stream on success, `None` when it fails. Stated of
/// a stream is what zlib is for: inflating it back, with room for the whole of
/// `data`, gives `data`. The error's text is left unsaid.
#[verifier::external_body]
pub fn zlib_compress(data: &[u8]) -> (r: Result<Vec<u8>, String>)
    ensures
        r matches Ok(v) ==> zlib_deflate(data@) == Some(v@) && (forall|limit: nat|
            limit > data@.len() ==> zlib_inflate_limited(v@, limit) == Some(data@)),
        r is Err ==> zlib_deflate(data@) is None,
{
    let mut encoder = flate2::write::ZlibEncoder::new(Vec::new(), flate2::Compression::default());
    match encoder.write_all(data) {
        Ok(()) => {},
        Err(e) => return Err(e.to_string()),
    }
    match encoder.finish() {
        Ok(v) => Ok(v),
        Err(e) => Err(e.to_string()),
    }
}

} // verus!
