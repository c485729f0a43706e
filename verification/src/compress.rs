//! The two stream-compression framings a document can be wrapped in.
//! Compression lives in the flate2 crate; the codec relies on it only
//! through the named decompression results below.

use vstd::prelude::*;

use std::io::Read;
use std::io::Write;

use crate::error::NbtError;

verus! {

/// What gzip decompression yields on a byte string, or nothing when the
/// bytes are not a well-formed gzip stream. Decompression is a function
/// of the bytes alone.
pub uninterp spec fn gunzip_of(data: Seq<u8>) -> Option<Seq<u8>>;

/// What zlib decompression yields on a byte string, or nothing when the
/// bytes are not a well-formed zlib stream.
pub uninterp spec fn zinflate_of(data: Seq<u8>) -> Option<Seq<u8>>;

/// Relies on flate2's `GzEncoder`: the stream it produces decompresses
/// (through `GzDecoder`, below) back to exactly the bytes written, and
/// compressing into an in-memory buffer cannot fail — the encoder's only
/// error source is the underlying writer, and a `Vec` never errors.
#[verifier::external_body]
pub(crate) fn gzip_compress(data: &Vec<u8>) -> (r: Vec<u8>)
    ensures
        gunzip_of(r@) == Some(data@),
{
    let mut enc = flate2::write::GzEncoder::new(Vec::new(), flate2::Compression::default());
    enc.write_all(data.as_slice()).expect("a Vec writer never errors");
    enc.finish().expect("a Vec writer never errors")
}

/// Relies on flate2's `GzDecoder`: reading it to the end yields the
/// decompressed bytes, and fails exactly on invalid gzip framing.
#[verifier::external_body]
pub(crate) fn gzip_decompress(data: &Vec<u8>) -> (r: Result<Vec<u8>, NbtError>)
    ensures
        match r {
            Ok(p) => gunzip_of(data@) == Some(p@),
            Err(e) => gunzip_of(data@) is None && e == NbtError::CompressionFailed,
        },
{
    let mut dec = flate2::read::GzDecoder::new(data.as_slice());
    let mut out = Vec::new();
    match dec.read_to_end(&mut out) {
        Ok(_) => Ok(out),
        Err(_) => Err(NbtError::CompressionFailed),
    }
}

/// Relies on flate2's `ZlibEncoder`: the stream it produces decompresses
/// (through `ZlibDecoder`, below) back to exactly the bytes written, and
/// compressing into an in-memory buffer cannot fail — the encoder's only
/// error source is the underlying writer, and a `Vec` never errors.
#[verifier::external_body]
pub(crate) fn zlib_compress(data: &Vec<u8>) -> (r: Vec<u8>)
    ensures
        zinflate_of(r@) == Some(data@),
{
    let mut enc = flate2::write::ZlibEncoder::new(Vec::new(), flate2::Compression::default());
    enc.write_all(data.as_slice()).expect("a Vec writer never errors");
    enc.finish().expect("a Vec writer never errors")
}

/// Relies on flate2's `ZlibDecoder`: reading it to the end yields the
/// decompressed bytes, and fails exactly on invalid zlib framing.
#[verifier::external_body]
pub(crate) fn zlib_decompress(data: &Vec<u8>) -> (r: Result<Vec<u8>, NbtError>)
    ensures
        match r {
            Ok(p) => zinflate_of(data@) == Some(p@),
            Err(e) => zinflate_of(data@) is None && e == NbtError::CompressionFailed,
        },
{
    let mut dec = flate2::read::ZlibDecoder::new(data.as_slice());
    let mut out = Vec::new();
    match dec.read_to_end(&mut out) {
        Ok(_) => Ok(out),
        Err(_) => Err(NbtError::CompressionFailed),
    }
}

} // verus!
