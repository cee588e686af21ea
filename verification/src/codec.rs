//! Record compression: raw Snappy blocks and zlib streams.

use std::io::{Read, Write};
use vstd::prelude::*;

verus! {

/// The failure of a Snappy call, `snap::Error`.
#[verifier::external_type_specification]
#[verifier::external_body]
pub struct ExSnapError(snap::Error);

/// The failure of a zlib call, `std::io::Error`.
#[verifier::external_type_specification]
#[verifier::external_body]
pub struct ExIoError(std::io::Error);

/// The Snappy block that holds `input`, if `input` is not too long for one.
pub uninterp spec fn snappy_compressed(input: Seq<u8>) -> Option<Seq<u8>>;

/// What a Snappy block holds, if `input` is one.
pub uninterp spec fn snappy_decompressed(input: Seq<u8>) -> Option<Seq<u8>>;

/// The zlib stream that holds `input` at the fast level.
pub uninterp spec fn zlib_compressed(input: Seq<u8>) -> Option<Seq<u8>>;

/// What the zlib stream at the start of `input` holds, if there is one.
pub uninterp spec fn zlib_decompressed(input: Seq<u8>) -> Option<Seq<u8>>;

/// Longest output of a Snappy block over `len` bytes.
pub open spec fn snappy_bound(len: int) -> int {
    32 + len + len / 6
}

/// `snap::raw::Encoder::compress_vec`: fails exactly for an input whose
/// bound exceeds the largest `u32`, never outgrows that bound, and
/// `decompress_vec` gives back what went in.
#[verifier::external_body]
pub(crate) fn snappy_compress(input: &[u8]) -> (output: Result<Vec<u8>, snap::Error>)
    ensures
        output is Ok <==> snappy_bound(input@.len() as int) <= u32::MAX,
        output is Ok <==> snappy_compressed(input@) is Some,
        output matches Ok(bytes) ==> {
            &&& snappy_compressed(input@) == Some(bytes@)
            &&& bytes@.len() <= snappy_bound(input@.len() as int)
            &&& snappy_decompressed(bytes@) == Some(input@)
        },
{
    snap::raw::Encoder::new().compress_vec(input)
}

/// `snap::raw::Decoder::decompress_vec`: what the block in `input` holds, or
/// the error for bytes that are no block.
#[verifier::external_body]
pub(crate) fn snappy_decompress(input: &[u8]) -> (output: Result<Vec<u8>, snap::Error>)
    ensures
        output is Ok <==> snappy_decompressed(input@) is Some,
        output matches Ok(bytes) ==> snappy_decompressed(input@) == Some(bytes@),
{
    snap::raw::Decoder::new().decompress_vec(input)
}

/// `flate2::write::ZlibEncoder` at `Compression::fast` over a vector: the
/// stream of `input`, from which the decoder reads `input` back.
#[verifier::external_body]
pub(crate) fn zlib_compress(input: &[u8]) -> (output: Result<Vec<u8>, std::io::Error>)
    ensures
        output is Ok <==> zlib_compressed(input@) is Some,
        output matches Ok(bytes) ==> {
            &&& zlib_compressed(input@) == Some(bytes@)
            &&& zlib_decompressed(bytes@) == Some(input@)
        },
{
    let mut encoder = flate2::write::ZlibEncoder::new(Vec::new(), flate2::Compression::fast());
    encoder.write_all(input)?;
    encoder.finish()
}

/// `flate2::read::ZlibDecoder` read to its end: what the stream at the start
/// of `input` holds, or the error for bytes that start with none.
#[verifier::external_body]
pub(crate) fn zlib_decompress(input: &[u8]) -> (output: Result<Vec<u8>, std::io::Error>)
    ensures
        output is Ok <==> zlib_decompressed(input@) is Some,
        output matches Ok(bytes) ==> zlib_decompressed(input@) == Some(bytes@),
{
    let mut output = Vec::new();
    flate2::read::ZlibDecoder::new(input).read_to_end(&mut output)?;
    Ok(output)
}

} // verus!
