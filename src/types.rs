//! The data model shared by the decoder and the encoder.
use vstd::prelude::*;

verus! {

/// The colour model named by an image header's colour type and bit depth.
#[derive(Debug, Clone, Copy, PartialEq, Eq, Structural)]
pub enum ImageType {
    Grayscale,
    Truecolor,
    IndexedColor,
    GrayscaleAlpha,
    TruecolorAlpha,
    Unknown,
}

/// How hard the encoder works, and how much colour precision it may give up.
#[derive(Debug, Clone, Copy, PartialEq, Eq, Structural)]
pub enum CompressionLevel {
    /// No quantisation, fastest deflate.
    Lossless,
    /// Six bits per colour channel, best-ratio deflate.
    Balanced,
    /// Four bits per colour channel, iterative near-optimal deflate.
    Maximum,
}

/// The fields of an image header that the codec keeps.
#[derive(Debug, Clone, Copy, PartialEq, Eq, Structural)]
pub struct PngInfo {
    pub width: u32,
    pub height: u32,
    pub bit_depth: u8,
    pub color_type: u8,
    pub interlace: u8,
    pub image_type: ImageType,
}

/// One RGBA pixel.
#[derive(Debug, Clone, Copy, PartialEq, Eq, Structural)]
pub struct Pixel {
    pub red: u8,
    pub green: u8,
    pub blue: u8,
    pub alpha: u8,
}

/// A decoded image: its header and its pixels as interleaved RGBA bytes,
/// row-major, top to bottom.
#[derive(Debug)]
pub struct DecodedPng {
    pub info: PngInfo,
    pub rgba: Vec<u8>,
}

/// Why a decode or an encode stopped.
#[derive(Debug, Clone, Copy, PartialEq, Eq, Structural)]
pub enum PngError {
    /// The input does not start with the container's signature.
    BadSignature,
    /// The input ended before a complete chunk, or before the end chunk.
    Truncated,
    /// The header chunk's payload is not exactly thirteen bytes long.
    BadHeaderLength,
    /// The end chunk came without a header chunk before it.
    MissingHeader,
    /// A chunk's stored checksum differs from the one computed (only when
    /// checksums are checked).
    BadChecksum,
    /// The header names a compression method and a filter method other than 0.
    UnsupportedCompression,
    /// The header asks for interlacing.
    Interlaced,
    /// The header's bit depth is not 8.
    UnsupportedBitDepth,
    /// The header's colour type is neither Truecolor (2) nor TruecolorAlpha (6).
    UnsupportedColorType,
    /// A scanline's filter byte is outside 0..=4.
    UnsupportedFilter,
    /// The inflated image data does not have the length the header implies.
    SizeMismatch,
    /// The image data is not a valid zlib stream.
    InflateFailed,
    /// The encrypted image data failed authentication or is too short.
    DecryptFailed,
    /// The cipher refused to encrypt the image data.
    EncryptFailed,
    /// A chunk payload would not fit the four-byte length field.
    ChunkTooLarge,
}

impl DecodedPng {
    /// The pixel buffer holds exactly four bytes for each of width × height pixels.
    pub open spec fn wf(&self) -> bool {
        self.rgba@.len() == self.info.width as int * self.info.height as int * 4
    }
}

} // verus!
