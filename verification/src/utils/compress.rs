//! The lossless byte-stream compression capability: any lossless algorithm
//! satisfies the contract; this build uses a zlib stream.

use std::io::Write;
use vstd::prelude::*;

verus! {

/// The zlib stream a byte string compresses to, named: with a fixed
/// compression backend and its default level, the stream is a function of
/// the input bytes alone.
pub uninterp spec fn zlib_of(data: Seq<u8>) -> Seq<u8>;

/// What a byte string decompresses to, named: inflating is fully determined
/// by its input; corrupt input yields nothing.
pub uninterp spec fn unzlib_of(data: Seq<u8>) -> Option<Seq<u8>>;

/// Relies on flate2's `write::ZlibEncoder` with the default level: the
/// produced stream is a function of the input alone, and decompressing it
/// returns exactly the input (zlib is lossless).
#[verifier::external_body]
pub fn compress(data: &[u8]) -> (r: Vec<u8>)
    ensures
        r@ == zlib_of(data@),
        unzlib_of(r@) == Some(data@),
{
    let mut e = flate2::write::ZlibEncoder::new(Vec::new(), flate2::Compression::default());
    e.write_all(data).unwrap();
    e.finish().unwrap()
}

/// Relies on flate2's `write::ZlibDecoder`: inflating a zlib stream returns
/// the bytes that were compressed; a corrupt stream fails.
#[verifier::external_body]
pub fn decompress(data: &[u8]) -> (r: Option<Vec<u8>>)
    ensures
        match r {
            Some(v) => unzlib_of(data@) == Some(v@),
            None => unzlib_of(data@) is None,
        },
{
    let mut z = flate2::write::ZlibDecoder::new(Vec::new());
    if z.write_all(data).is_err() {
        return None;
    }
    match z.finish() {
        Ok(v) => Some(v),
        Err(_) => None,
    }
}

} // verus!
