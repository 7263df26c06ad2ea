//! The closed set of chunk tags, and the fixed words of the container.
use vstd::prelude::*;

verus! {

/// The first four bytes of the PNG signature, big-endian.
pub const SIGNATURE_HIGH: u32 = 0x89504E47;

/// The last four bytes of the PNG signature, big-endian.
pub const SIGNATURE_LOW: u32 = 0x0D0A1A0A;

/// The checksum word that closes the image-end record.
pub const IEND_CHECKSUM: u32 = 0xAE426082;

/// The largest payload of one pixel-data record.
pub const MAX_IDAT_SIZE: usize = 0x8000;

/// Bit depth of 8 bits per channel.
pub const DEPTH_8: u8 = 0x08;

/// Bit depth of 16 bits per channel.
pub const DEPTH_16: u8 = 0x10;

/// The chunk tags this codec knows by name. Records with any other tag
/// are carried unchanged all the same.
#[derive(Debug, Clone, Copy, PartialEq, Eq, Structural)]
pub enum ChunkTag {
    ImageHeader,
    ImageData,
    ImageEnd,
    TextualData,
    ModifyDate,
    Palette,
    BackgroundColor,
    PrimaryChromaticities,
    DigitalSignature,
    FractalParameters,
    Gamma,
    GifGraphicControlExtension,
    GifPlainTextExtension,
    GifApplicationExtension,
    PaletteHistogram,
    IccProfile,
    InternationalText,
    ImageOffset,
    PixelCalibration,
    PhysicalPixel,
    SignificantBits,
    SubjectScale,
    SuggestedPalette,
    SrgbRendering,
    StereoImage,
    Transparency,
    Xmp,
    VirtualPage,
    CompressedText,
}

impl ChunkTag {
    /// The four tag bytes, read as a big-endian word.
    pub open spec fn code(self) -> u32 {
        match self {
            ChunkTag::ImageHeader => 0x49484452,
            ChunkTag::ImageData => 0x49444154,
            ChunkTag::ImageEnd => 0x49454E44,
            ChunkTag::TextualData => 0x74455874,
            ChunkTag::ModifyDate => 0x74494d45,
            ChunkTag::Palette => 0x504c5445,
            ChunkTag::BackgroundColor => 0x624b4744,
            ChunkTag::PrimaryChromaticities => 0x6348524d,
            ChunkTag::DigitalSignature => 0x64534947,
            ChunkTag::FractalParameters => 0x66524163,
            ChunkTag::Gamma => 0x67414d41,
            ChunkTag::GifGraphicControlExtension => 0x67494667,
            ChunkTag::GifPlainTextExtension => 0x67494674,
            ChunkTag::GifApplicationExtension => 0x67494678,
            ChunkTag::PaletteHistogram => 0x68495354,
            ChunkTag::IccProfile => 0x69434350,
            ChunkTag::InternationalText => 0x69545874,
            ChunkTag::ImageOffset => 0x6f464673,
            ChunkTag::PixelCalibration => 0x7043414c,
            ChunkTag::PhysicalPixel => 0x70485973,
            ChunkTag::SignificantBits => 0x73424954,
            ChunkTag::SubjectScale => 0x7343414c,
            ChunkTag::SuggestedPalette => 0x73504c54,
            ChunkTag::SrgbRendering => 0x73524742,
            ChunkTag::StereoImage => 0x73544552,
            ChunkTag::Transparency => 0x74524e53,
            ChunkTag::Xmp => 0x74584d50,
            ChunkTag::VirtualPage => 0x76704167,
            ChunkTag::CompressedText => 0x7a545874,
        }
    }

    /// See `code`.
    pub fn value(&self) -> (r: u32)
        ensures
            r == self.code(),
    {
        match self {
            ChunkTag::ImageHeader => 0x49484452,
            ChunkTag::ImageData => 0x49444154,
            ChunkTag::ImageEnd => 0x49454E44,
            ChunkTag::TextualData => 0x74455874,
            ChunkTag::ModifyDate => 0x74494d45,
            ChunkTag::Palette => 0x504c5445,
            ChunkTag::BackgroundColor => 0x624b4744,
            ChunkTag::PrimaryChromaticities => 0x6348524d,
            ChunkTag::DigitalSignature => 0x64534947,
            ChunkTag::FractalParameters => 0x66524163,
            ChunkTag::Gamma => 0x67414d41,
            ChunkTag::GifGraphicControlExtension => 0x67494667,
            ChunkTag::GifPlainTextExtension => 0x67494674,
            ChunkTag::GifApplicationExtension => 0x67494678,
            ChunkTag::PaletteHistogram => 0x68495354,
            ChunkTag::IccProfile => 0x69434350,
            ChunkTag::InternationalText => 0x69545874,
            ChunkTag::ImageOffset => 0x6f464673,
            ChunkTag::PixelCalibration => 0x7043414c,
            ChunkTag::PhysicalPixel => 0x70485973,
            ChunkTag::SignificantBits => 0x73424954,
            ChunkTag::SubjectScale => 0x7343414c,
            ChunkTag::SuggestedPalette => 0x73504c54,
            ChunkTag::SrgbRendering => 0x73524742,
            ChunkTag::StereoImage => 0x73544552,
            ChunkTag::Transparency => 0x74524e53,
            ChunkTag::Xmp => 0x74584d50,
            ChunkTag::VirtualPage => 0x76704167,
            ChunkTag::CompressedText => 0x7a545874,
        }
    }
}

} // verus!
