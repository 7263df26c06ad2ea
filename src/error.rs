//! Errors of decoding and encoding.
use vstd::prelude::*;

verus! {

/// Why a decode or an encode stopped.
#[derive(Debug, Clone, Copy, PartialEq, Eq, Structural)]
pub enum PngError {
    /// The data ended where more was expected.
    UnexpectedEof,
    /// The first eight bytes are not the PNG signature.
    InvalidSignature,
    /// The header record's length field is not 13.
    InvalidByteCount,
    /// The first record is not tagged as the image header.
    InvalidIhdrTag,
    /// The width is 0 or above the largest supported width.
    InvalidWidth,
    /// The height is 0 or above the largest supported height.
    InvalidHeight,
    /// The bit depth is neither 8 nor 16.
    InvalidBitDepth,
    /// The color type is not truecolor with alpha.
    InvalidColorType,
    /// The compression method is not 0.
    InvalidCompression,
    /// The filter method is not 0.
    InvalidFilterMode,
    /// The interlace method is not 0.
    InterlaceNotSupported,
    /// A scanline starts with a filter-type byte above 4.
    InvalidFilterType,
    /// The pixel data ends inside a scanline.
    TruncatedScanline,
    /// The pixel data or the planes do not hold width x height pixels.
    ImageSizeMismatch,
    /// The compressed pixel data could not be inflated.
    Decompression,
    /// The pixel data could not be compressed.
    Compression,
}

impl PngError {
    /// Whether the error is about malformed content, rather than data that
    /// ended early or a failure of the compression codec.
    pub open spec fn is_format(self) -> bool {
        !(self is UnexpectedEof || self is Decompression || self is Compression)
    }

    /// See `is_format`.
    pub fn is_format_error(&self) -> (r: bool)
        ensures
            r == self.is_format(),
    {
        match self {
            PngError::UnexpectedEof | PngError::Decompression | PngError::Compression => false,
            _ => true,
        }
    }
}

} // verus!
