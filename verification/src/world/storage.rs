use vstd::prelude::*;

use flate2::read::ZlibDecoder;
use flate2::write::ZlibEncoder;
use flate2::Compression;
use std::io::{Read, Write};

verus! {

/// The bytes that a zlib stream inflates to, none where `data` does not hold one.
pub uninterp spec fn zlib_inflate(data: Seq<u8>) -> Option<Seq<u8>>;

/// The zlib stream that flate2 makes of `data` at its default compression level.
pub uninterp spec fn zlib_deflate(data: Seq<u8>) -> Seq<u8>;

/// Inflates a zlib stream through flate2's `read::ZlibDecoder`, reading it to its end.
/// Claims that the result is a function of the bytes alone: their inflated content, or
/// none where the decoder reports an error.
#[verifier::external_body]
fn zlib_decompress(data: &[u8]) -> (r: Option<Vec<u8>>)
    ensures
        match r {
            Some(v) => zlib_inflate(data@) == Some(v@),
            None => zlib_inflate(data@) is None,
        },
{
    let mut out = Vec::new();
    match ZlibDecoder::new(data).read_to_end(&mut out) {
        Ok(_) => Some(out),
        Err(_) => None,
    }
}

/// Deflates `data` through flate2's `write::ZlibEncoder` at `Compression::default()`,
/// writing into a vector and finishing the stream. A vector takes every write, so the
/// call succeeds. Claims that the stream is a function of the bytes alone and, zlib being
/// lossless, that it inflates back to them.
#[verifier::external_body]
fn zlib_compress(data: &[u8]) -> (r: Option<Vec<u8>>)
    ensures
        r is Some,
        r->0@ == zlib_deflate(data@),
        zlib_inflate(r->0@) == Some(data@),
{
    let mut encoder = ZlibEncoder::new(Vec::new(), Compression::default());
    match encoder.write_all(data) {
        Ok(()) => encoder.finish().ok(),
        Err(_) => None,
    }
}

/// The serialized region that a region file holds: the file's bytes inflated, none
/// where they are no zlib stream (the server cannot load such a region).
pub fn region_payload(file: &[u8]) -> (r: Option<Vec<u8>>)
    ensures
        match r {
            Some(v) => zlib_inflate(file@) == Some(v@),
            None => zlib_inflate(file@) is None,
        },
{
    zlib_decompress(file)
}

/// The bytes of a region file that holds the serialized region `payload`: the payload
/// deflated. Such a file reads back as the payload.
pub fn region_file(payload: &[u8]) -> (r: Vec<u8>)
    ensures
        r@ == zlib_deflate(payload@),
        zlib_inflate(r@) == Some(payload@),
{
    match zlib_compress(payload) {
        Some(v) => v,
        None => Vec::new(),
    }
}

} // verus!
