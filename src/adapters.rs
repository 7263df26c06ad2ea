//! The checksum and the zlib codec of the outside crates, with what this
//! library relies on of each.
use vstd::prelude::*;
use std::io::Read;
use std::io::Write;
use crate::error::PngError;

verus! {

/// The CRC-32 (ISO-HDLC polynomial, as PNG records use) of a byte sequence.
pub uninterp spec fn crc32_of(bytes: Seq<u8>) -> u32;

/// The zlib stream that flate2 produces for `bytes` at effort `level`.
pub uninterp spec fn zlib_compressed(bytes: Seq<u8>, level: u32) -> Seq<u8>;

/// What flate2 inflates the zlib stream `bytes` to, or `None` where it
/// rejects the stream.
pub uninterp spec fn zlib_inflated(bytes: Seq<u8>) -> Option<Seq<u8>>;

/// Relies on crc's `Crc::<u32>::checksum` with `CRC_32_ISO_HDLC`: the
/// checksum is a function of the bytes alone.
#[verifier::external_body]
pub(crate) fn crc32(bytes: &[u8]) -> (r: u32)
    ensures
        r == crc32_of(bytes@),
{
    crc::Crc::<u32>::new(&crc::CRC_32_ISO_HDLC).checksum(bytes)
}

/// Relies on flate2's `write::ZlibEncoder` over a `Vec`: the stream it
/// writes is a function of the bytes and the level; it is a zlib stream,
/// so it is never empty (it opens with a two-byte header); and the codec
/// is lossless, so `read::ZlibDecoder` inflates it back to the bytes.
/// Writing into a `Vec` cannot fail, and the encoder is finished once, so
/// the call succeeds.
#[verifier::external_body]
pub(crate) fn zlib_compress(bytes: &[u8], level: u32) -> (r: Result<Vec<u8>, PngError>)
    requires
        level <= 9,
    ensures
        r is Ok,
        r is Ok ==> r->Ok_0@ == zlib_compressed(bytes@, level),
        r is Ok ==> r->Ok_0@.len() > 0,
        r is Ok ==> zlib_inflated(r->Ok_0@) == Some(bytes@),
{
    let mut encoder = flate2::write::ZlibEncoder::new(Vec::new(), flate2::Compression::new(level));
    match encoder.write_all(bytes) {
        Ok(()) => {},
        Err(_) => return Err(PngError::Compression),
    }
    match encoder.finish() {
        Ok(out) => Ok(out),
        Err(_) => Err(PngError::Compression),
    }
}

/// Relies on flate2's `read::ZlibDecoder`, read to its end: the bytes it
/// yields, or its failure, are a function of the input alone.
#[verifier::external_body]
pub(crate) fn zlib_decompress(bytes: &[u8]) -> (r: Result<Vec<u8>, PngError>)
    ensures
        match zlib_inflated(bytes@) {
            Some(d) => r is Ok && r->Ok_0@ == d,
            None => r is Err && r->Err_0 == PngError::Decompression,
        },
{
    let mut out = Vec::new();
    match flate2::read::ZlibDecoder::new(bytes).read_to_end(&mut out) {
        Ok(_) => Ok(out),
        Err(_) => Err(PngError::Decompression),
    }
}

} // verus!
