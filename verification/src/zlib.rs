//! Zlib compression of the bytes of a saved network, through flate2.

use std::io::Read;

use flate2::read::{ZlibDecoder, ZlibEncoder};
use flate2::Compression;
use vstd::prelude::*;

verus! {

/// The zlib stream flate2 produces for `data` at compression `level`.
pub uninterp spec fn zlib_compressed(data: Seq<u8>, level: u32) -> Seq<u8>;

/// The bytes flate2's zlib decoder reads from `data`, or `None` where it
/// reports an error (as for bytes that are no zlib stream).
pub uninterp spec fn zlib_decompressed(data: Seq<u8>) -> Option<Seq<u8>>;

/// Compresses `data` with flate2's `read::ZlibEncoder` at `level` (0 to 9),
/// reading it to the end. The result is the stream named
/// `zlib_compressed(data, level)`; compression is lossless, so
/// decompressing it gives `data` back. Reading from a byte slice does not
/// fail.
#[verifier::external_body]
fn zlib_compress(data: &[u8], level: u32) -> (out: Vec<u8>)
    requires
        level <= 9,
    ensures
        out@ == zlib_compressed(data@, level),
        zlib_decompressed(out@) == Some(data@),
{
    let mut e = ZlibEncoder::new(data, Compression::new(level));
    let mut out = Vec::new();
    let _ = e.read_to_end(&mut out);
    out
}

/// Decompresses `data` with flate2's `read::ZlibDecoder`, reading it to the
/// end: `None` where flate2 reports an error, else the bytes named
/// `zlib_decompressed(data)`.
#[verifier::external_body]
fn zlib_decompress(data: &[u8]) -> (out: Option<Vec<u8>>)
    ensures
        out is Some <==> zlib_decompressed(data@) is Some,
        out matches Some(v) ==> Some(v@) == zlib_decompressed(data@),
{
    let mut d = ZlibDecoder::new(data);
    let mut out = Vec::new();
    match d.read_to_end(&mut out) {
        Ok(_) => Some(out),
        Err(_) => None,
    }
}

/// Compression level of saved networks: the best.
pub const SAVE_LEVEL: u32 = 9;

/// The bytes written to a file when saving a network whose serialized form
/// is `json`: `json` compressed with zlib at the best level.
pub fn encode_saved(json: &[u8]) -> (bytes: Vec<u8>)
    ensures
        bytes@ == zlib_compressed(json@, SAVE_LEVEL),
        zlib_decompressed(bytes@) == Some(json@),
{
    zlib_compress(json, SAVE_LEVEL)
}

/// The serialized network held in the bytes of a saved file: the bytes
/// decompressed with zlib, or `None` when they are not a zlib stream.
pub fn decode_saved(bytes: &[u8]) -> (json: Option<Vec<u8>>)
    ensures
        json is Some <==> zlib_decompressed(bytes@) is Some,
        json matches Some(v) ==> Some(v@) == zlib_decompressed(bytes@),
{
    zlib_decompress(bytes)
}

} // verus!
