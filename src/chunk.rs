//! The chunk container: big-endian fields, chunk framing, the fixed tags and
//! the header record.
use vstd::prelude::*;

use crate::backend::{crc32, crc32_of};
use crate::types::{ImageType, PngError, PngInfo};

verus! {

/// The eight bytes every file starts with.
pub open spec fn signature() -> Seq<u8> {
    seq![0x89u8, 0x50u8, 0x4eu8, 0x47u8, 0x0du8, 0x0au8, 0x1au8, 0x0au8]
}

/// The header chunk's tag, "IHDR".
pub open spec fn ihdr_tag() -> Seq<u8> {
    seq![0x49u8, 0x48u8, 0x44u8, 0x52u8]
}

/// The image data chunk's tag, "IDAT".
pub open spec fn idat_tag() -> Seq<u8> {
    seq![0x49u8, 0x44u8, 0x41u8, 0x54u8]
}

/// The end chunk's tag, "IEND".
pub open spec fn iend_tag() -> Seq<u8> {
    seq![0x49u8, 0x45u8, 0x4eu8, 0x44u8]
}

/// The signature as bytes.
pub fn signature_bytes() -> (r: Vec<u8>)
    ensures
        r@ == signature(),
{
    let r: Vec<u8> = vec![0x89, 0x50, 0x4e, 0x47, 0x0d, 0x0a, 0x1a, 0x0a];
    assert(r@ =~= signature());
    r
}

/// The header chunk's tag as bytes.
pub fn ihdr_bytes() -> (r: [u8; 4])
    ensures
        r@ == ihdr_tag(),
{
    let r: [u8; 4] = [0x49, 0x48, 0x44, 0x52];
    assert(r@ =~= ihdr_tag());
    r
}

/// The image data chunk's tag as bytes.
pub fn idat_bytes() -> (r: [u8; 4])
    ensures
        r@ == idat_tag(),
{
    let r: [u8; 4] = [0x49, 0x44, 0x41, 0x54];
    assert(r@ =~= idat_tag());
    r
}

/// The end chunk's tag as bytes.
pub fn iend_bytes() -> (r: [u8; 4])
    ensures
        r@ == iend_tag(),
{
    let r: [u8; 4] = [0x49, 0x45, 0x4e, 0x44];
    assert(r@ =~= iend_tag());
    r
}

/// The unsigned integer stored big-endian in `s[i..i + 4]`.
pub open spec fn be_u32(s: Seq<u8>, i: int) -> int {
    s[i] as int * 0x100_0000 + s[i + 1] as int * 0x1_0000 + s[i + 2] as int * 0x100 + s[i + 3] as int
}

/// The four big-endian bytes of `x`.
pub open spec fn be_bytes(x: u32) -> Seq<u8> {
    seq![(x / 0x100_0000) as u8, ((x / 0x1_0000) % 0x100) as u8, ((x / 0x100) % 0x100) as u8, (x % 0x100) as u8]
}

/// Reading back the four big-endian bytes of `x` gives `x`.
pub proof fn lemma_be_round_trip(x: u32)
    ensures
        be_u32(be_bytes(x), 0) == x,
{
    let b = be_bytes(x);
    assert(b[0] as int * 0x100_0000 + b[1] as int * 0x1_0000 + b[2] as int * 0x100 + b[3] as int == x) by (nonlinear_arith)
        requires
            b[0] == (x / 0x100_0000) as u8,
            b[1] == ((x / 0x1_0000) % 0x100) as u8,
            b[2] == ((x / 0x100) % 0x100) as u8,
            b[3] == (x % 0x100) as u8,
            x <= 0xffff_ffff,
    ;
}

/// Reads the big-endian integer at `b[i..i + 4]`.
pub fn read_be_u32(b: &[u8], i: usize) -> (r: u32)
    requires
        i + 4 <= b@.len(),
    ensures
        r as int == be_u32(b@, i as int),
{
    (b[i] as u32) * 0x100_0000 + (b[i + 1] as u32) * 0x1_0000 + (b[i + 2] as u32) * 0x100 + (b[i + 3] as u32)
}

/// Appends the four big-endian bytes of `x`.
pub fn push_be_u32(out: &mut Vec<u8>, x: u32)
    ensures
        final(out)@ == old(out)@ + be_bytes(x),
{
    out.push((x / 0x100_0000) as u8);
    out.push(((x / 0x1_0000) % 0x100) as u8);
    out.push(((x / 0x100) % 0x100) as u8);
    out.push((x % 0x100) as u8);
    assert(final(out)@ =~= old(out)@ + be_bytes(x));
}

/// A framed chunk: payload length, tag, payload, and the CRC-32 of tag and
/// payload.
pub open spec fn chunk_bytes(tag: Seq<u8>, data: Seq<u8>) -> Seq<u8> {
    be_bytes(data.len() as u32) + tag + data + be_bytes(crc32_of(tag + data))
}

/// Appends the chunk `chunk_type` with payload `data` to `out`. A payload too
/// long for the four-byte length field is refused and `out` is left as it was.
pub fn write_chunk(out: &mut Vec<u8>, chunk_type: &[u8; 4], data: &[u8]) -> (r: Result<(), PngError>)
    ensures
        r is Ok <==> data@.len() <= u32::MAX,
        r is Ok ==> final(out)@ == old(out)@ + chunk_bytes(chunk_type@, data@),
        r is Err ==> r == Err::<(), PngError>(PngError::ChunkTooLarge) && final(out)@ == old(out)@,
{
    if data.len() > u32::MAX as usize {
        return Err(PngError::ChunkTooLarge);
    }
    let mut covered: Vec<u8> = Vec::new();
    covered.extend_from_slice(chunk_type.as_slice());
    covered.extend_from_slice(data);
    assert(covered@ =~= chunk_type@ + data@);
    let crc = crc32(covered.as_slice());
    let ghost start = out@;
    push_be_u32(out, data.len() as u32);
    out.extend_from_slice(covered.as_slice());
    push_be_u32(out, crc);
    assert(out@ =~= start + chunk_bytes(chunk_type@, data@));
    Ok(())
}

/// The colour model named by a colour type and bit depth.
pub open spec fn image_type_of(color_type: u8, bit_depth: u8) -> ImageType {
    if color_type == 0 && (bit_depth == 1 || bit_depth == 2 || bit_depth == 4 || bit_depth == 8 || bit_depth == 16) {
        ImageType::Grayscale
    } else if color_type == 2 && (bit_depth == 8 || bit_depth == 16) {
        ImageType::Truecolor
    } else if color_type == 3 && (bit_depth == 1 || bit_depth == 2 || bit_depth == 4 || bit_depth == 8) {
        ImageType::IndexedColor
    } else if color_type == 4 && (bit_depth == 8 || bit_depth == 16) {
        ImageType::GrayscaleAlpha
    } else if color_type == 6 && (bit_depth == 8 || bit_depth == 16) {
        ImageType::TruecolorAlpha
    } else {
        ImageType::Unknown
    }
}

/// Names the colour model of a colour type and bit depth.
pub fn parse_image_type(color_type: u8, bit_depth: u8) -> (r: ImageType)
    ensures
        r == image_type_of(color_type, bit_depth),
{
    match (color_type, bit_depth) {
        (0, 1) | (0, 2) | (0, 4) | (0, 8) | (0, 16) => ImageType::Grayscale,
        (2, 8) | (2, 16) => ImageType::Truecolor,
        (3, 1) | (3, 2) | (3, 4) | (3, 8) => ImageType::IndexedColor,
        (4, 8) | (4, 16) => ImageType::GrayscaleAlpha,
        (6, 8) | (6, 16) => ImageType::TruecolorAlpha,
        _ => ImageType::Unknown,
    }
}

/// The header that a header chunk's payload describes, or the first rule it
/// breaks: its length, then compression and filter method (refused only when
/// both are nonzero), interlacing, bit depth and colour type.
pub open spec fn header_of(data: Seq<u8>) -> Result<PngInfo, PngError> {
    if data.len() != 13 {
        Err(PngError::BadHeaderLength)
    } else {
        let bit_depth = data[8];
        let color_type = data[9];
        let compression = data[10];
        let filter = data[11];
        let interlace = data[12];
        if compression != 0 && filter != 0 {
            Err(PngError::UnsupportedCompression)
        } else if interlace != 0 {
            Err(PngError::Interlaced)
        } else if bit_depth != 8 {
            Err(PngError::UnsupportedBitDepth)
        } else if color_type != 2 && color_type != 6 {
            Err(PngError::UnsupportedColorType)
        } else {
            Ok(
                PngInfo {
                    width: be_u32(data, 0) as u32,
                    height: be_u32(data, 4) as u32,
                    bit_depth,
                    color_type,
                    interlace,
                    image_type: image_type_of(color_type, bit_depth),
                },
            )
        }
    }
}

/// Parses and validates a header chunk's payload.
pub fn parse_header(data: &[u8]) -> (r: Result<PngInfo, PngError>)
    ensures
        r == header_of(data@),
{
    if data.len() != 13 {
        return Err(PngError::BadHeaderLength);
    }
    let width = read_be_u32(data, 0);
    let height = read_be_u32(data, 4);
    let bit_depth = data[8];
    let color_type = data[9];
    let compression = data[10];
    let filter = data[11];
    let interlace = data[12];
    if compression != 0 && filter != 0 {
        return Err(PngError::UnsupportedCompression);
    }
    if interlace != 0 {
        return Err(PngError::Interlaced);
    }
    if bit_depth != 8 {
        return Err(PngError::UnsupportedBitDepth);
    }
    if color_type != 2 && color_type != 6 {
        return Err(PngError::UnsupportedColorType);
    }
    Ok(
        PngInfo {
            width,
            height,
            bit_depth,
            color_type,
            interlace,
            image_type: parse_image_type(color_type, bit_depth),
        },
    )
}

/// The thirteen-byte header payload for an 8-bit image of the given size and
/// colour type, with compression, filter and interlace methods 0.
pub open spec fn header_payload(width: u32, height: u32, color_type: u8) -> Seq<u8> {
    be_bytes(width) + be_bytes(height) + seq![8u8, color_type, 0u8, 0u8, 0u8]
}

/// Builds the header payload for an 8-bit image.
pub fn header_bytes(width: u32, height: u32, color_type: u8) -> (r: Vec<u8>)
    ensures
        r@ == header_payload(width, height, color_type),
{
    let mut r: Vec<u8> = Vec::with_capacity(13);
    push_be_u32(&mut r, width);
    push_be_u32(&mut r, height);
    r.push(8);
    r.push(color_type);
    r.push(0);
    r.push(0);
    r.push(0);
    assert(r@ =~= header_payload(width, height, color_type));
    r
}

} // verus!
