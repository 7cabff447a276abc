use std::io::Write;

use png_codec::{parse_image_type, write_chunk, CompressionLevel, DecodedPng, ImageType, PngError, PngInfo};

const SIGNATURE: [u8; 8] = [0x89, 0x50, 0x4e, 0x47, 0x0d, 0x0a, 0x1a, 0x0a];

fn image(width: u32, height: u32, rgba: Vec<u8>) -> DecodedPng {
    DecodedPng {
        info: PngInfo {
            width,
            height,
            bit_depth: 8,
            color_type: 6,
            interlace: 0,
            image_type: ImageType::TruecolorAlpha,
        },
        rgba,
    }
}

fn zlib(data: &[u8]) -> Vec<u8> {
    let mut e = flate2::write::ZlibEncoder::new(Vec::new(), flate2::Compression::default());
    e.write_all(data).unwrap();
    e.finish().unwrap()
}

fn header(width: u32, height: u32, bit_depth: u8, color_type: u8, comp: u8, filter: u8, interlace: u8) -> Vec<u8> {
    let mut h = Vec::new();
    h.extend_from_slice(&width.to_be_bytes());
    h.extend_from_slice(&height.to_be_bytes());
    h.extend_from_slice(&[bit_depth, color_type, comp, filter, interlace]);
    h
}

/// A file with the given header payload and one image data chunk.
fn file(ihdr: &[u8], idat: &[u8]) -> Vec<u8> {
    let mut out = SIGNATURE.to_vec();
    write_chunk(&mut out, b"IHDR", ihdr).unwrap();
    write_chunk(&mut out, b"IDAT", idat).unwrap();
    write_chunk(&mut out, b"IEND", &[]).unwrap();
    out
}

fn sample_rgba(width: u32, height: u32) -> Vec<u8> {
    let mut v = Vec::new();
    for i in 0..(width * height) {
        let a = if i % 5 == 0 { 0 } else { (i * 37 % 256) as u8 };
        v.extend_from_slice(&[(i * 7 % 256) as u8, (i * 13 + 5) as u8, (i * 29 + 11) as u8, a]);
    }
    v
}

fn alpha_zeroed(rgba: &[u8]) -> Vec<u8> {
    rgba.chunks(4).flat_map(|p| if p[3] == 0 { [0, 0, 0, 0] } else { [p[0], p[1], p[2], p[3]] }).collect()
}

#[test]
fn scenario_opaque_red_two_by_two() {
    let rgba = [255u8, 0, 0, 255].repeat(4);
    let bytes = image(2, 2, rgba.clone()).encode(CompressionLevel::Lossless, None).unwrap();
    let back = DecodedPng::decode(&bytes, None, true).unwrap();
    assert_eq!(back.rgba, rgba);
    assert_eq!(back.info.width, 2);
    assert_eq!(back.info.height, 2);
    // All opaque: written as Truecolor.
    assert_eq!(back.info.color_type, 2);
    assert_eq!(back.info.image_type, ImageType::Truecolor);
}

#[test]
fn scenario_transparent_pixel_turns_black() {
    let bytes = image(1, 1, vec![10, 20, 30, 0]).encode(CompressionLevel::Lossless, None).unwrap();
    let back = DecodedPng::decode(&bytes, None, false).unwrap();
    assert_eq!(back.rgba, vec![0, 0, 0, 0]);
    assert_eq!(back.info.color_type, 6);
}

#[test]
fn lossless_round_trip_keeps_visible_pixels() {
    let rgba = sample_rgba(7, 5);
    let bytes = image(7, 5, rgba.clone()).encode(CompressionLevel::Lossless, None).unwrap();
    let back = DecodedPng::decode(&bytes, None, true).unwrap();
    assert_eq!(back.rgba, alpha_zeroed(&rgba));
}

#[test]
fn lossy_levels_round_trip_to_quantized_pixels() {
    let rgba = sample_rgba(4, 3);
    for (level, bits) in [(CompressionLevel::Balanced, 6u8), (CompressionLevel::Maximum, 4u8)] {
        let bytes = image(4, 3, rgba.clone()).encode(level, None).unwrap();
        let back = DecodedPng::decode(&bytes, None, true).unwrap();
        let expected = alpha_zeroed(&png_codec::quantize_colors(&rgba, bits));
        assert_eq!(back.rgba, expected);
    }
}

#[test]
fn encrypted_round_trip_with_same_key() {
    let key = [7u8; 32];
    let rgba = sample_rgba(3, 3);
    let bytes = image(3, 3, rgba.clone()).encode(CompressionLevel::Lossless, Some(&key)).unwrap();
    let back = DecodedPng::decode(&bytes, Some(&key), true).unwrap();
    assert_eq!(back.rgba, alpha_zeroed(&rgba));
}

#[test]
fn encrypted_file_rejects_other_key() {
    let key = [7u8; 32];
    let other = [8u8; 32];
    let bytes = image(2, 2, sample_rgba(2, 2)).encode(CompressionLevel::Lossless, Some(&key)).unwrap();
    assert_eq!(DecodedPng::decode(&bytes, Some(&other), false).unwrap_err(), PngError::DecryptFailed);
}

#[test]
fn encrypted_file_rejects_flipped_ciphertext_byte() {
    let key = [3u8; 32];
    let mut bytes = image(2, 2, sample_rgba(2, 2)).encode(CompressionLevel::Lossless, Some(&key)).unwrap();
    // Signature (8) + header chunk (25) + length and tag (8) + nonce (12).
    let at = 8 + 25 + 8 + 12;
    bytes[at] ^= 0x01;
    assert_eq!(DecodedPng::decode(&bytes, Some(&key), false).unwrap_err(), PngError::DecryptFailed);
}

#[test]
fn encrypted_payload_differs_from_plain_stream() {
    let key = [1u8; 32];
    let img = image(2, 2, sample_rgba(2, 2));
    let plain = img.encode(CompressionLevel::Lossless, None).unwrap();
    let sealed = img.encode(CompressionLevel::Lossless, Some(&key)).unwrap();
    // Nonce and tag add 28 bytes to the image data chunk.
    assert_eq!(sealed.len(), plain.len() + 28);
    assert_ne!(sealed, plain);
    // Without the key the sealed stream is not valid zlib data.
    assert!(DecodedPng::decode(&sealed, None, false).is_err());
}

#[test]
fn short_keyed_payload_is_a_decrypt_error() {
    let key = [1u8; 32];
    let bytes = file(&header(1, 1, 8, 6, 0, 0, 0), &[0u8; 12]);
    assert_eq!(DecodedPng::decode(&bytes, Some(&key), false).unwrap_err(), PngError::DecryptFailed);
}

#[test]
fn truncated_scanlines_are_a_size_mismatch() {
    // 2 x 1 RGBA: one filter byte and eight pixel bytes.
    let raw = [0u8, 1, 2, 3, 4, 5, 6, 7, 8];
    let good = file(&header(2, 1, 8, 6, 0, 0, 0), &zlib(&raw));
    assert_eq!(DecodedPng::decode(&good, None, true).unwrap().rgba, vec![1, 2, 3, 4, 5, 6, 7, 8]);
    let short = file(&header(2, 1, 8, 6, 0, 0, 0), &zlib(&raw[..8]));
    assert_eq!(DecodedPng::decode(&short, None, true).unwrap_err(), PngError::SizeMismatch);
}

#[test]
fn pixels_from_raw_checks_length_exactly() {
    let info = image(1, 1, vec![]).info;
    assert_eq!(png_codec::read::pixels_from_raw(&info, &[0, 1, 2, 3, 4]).unwrap(), vec![1, 2, 3, 4]);
    assert_eq!(png_codec::read::pixels_from_raw(&info, &[0, 1, 2, 3]).unwrap_err(), PngError::SizeMismatch);
    assert_eq!(png_codec::read::pixels_from_raw(&info, &[5, 1, 2, 3, 4]).unwrap_err(), PngError::UnsupportedFilter);
}

#[test]
fn truecolor_rows_gain_opaque_alpha() {
    let raw = [0u8, 1, 2, 3, 4, 5, 6, 2, 1, 1, 1, 1, 1, 1];
    let bytes = file(&header(2, 2, 8, 2, 0, 0, 0), &zlib(&raw));
    let img = DecodedPng::decode(&bytes, None, false).unwrap();
    assert_eq!(img.rgba, vec![1, 2, 3, 255, 4, 5, 6, 255, 2, 3, 4, 255, 5, 6, 7, 255]);
    let p = img.get(1, 1);
    assert_eq!((p.red, p.green, p.blue, p.alpha), (5, 6, 7, 255));
}

#[test]
fn unknown_filter_byte_is_unsupported() {
    let raw = [5u8, 1, 2, 3, 4];
    let bytes = file(&header(1, 1, 8, 6, 0, 0, 0), &zlib(&raw));
    assert_eq!(DecodedPng::decode(&bytes, None, false).unwrap_err(), PngError::UnsupportedFilter);
}

#[test]
fn bad_signature_is_refused() {
    let mut bytes = image(1, 1, vec![1, 2, 3, 4]).encode(CompressionLevel::Lossless, None).unwrap();
    bytes[1] = b'Q';
    assert_eq!(DecodedPng::decode(&bytes, None, false).unwrap_err(), PngError::BadSignature);
    assert_eq!(DecodedPng::decode(&[0x89, 0x50], None, false).unwrap_err(), PngError::BadSignature);
}

#[test]
fn input_ending_before_end_chunk_is_truncated() {
    let bytes = image(1, 1, vec![1, 2, 3, 4]).encode(CompressionLevel::Lossless, None).unwrap();
    let cut = &bytes[..bytes.len() - 12];
    assert_eq!(DecodedPng::decode(cut, None, false).unwrap_err(), PngError::Truncated);
    let cut = &bytes[..bytes.len() - 14];
    assert_eq!(DecodedPng::decode(cut, None, false).unwrap_err(), PngError::Truncated);
    assert_eq!(DecodedPng::decode(&SIGNATURE, None, false).unwrap_err(), PngError::Truncated);
}

#[test]
fn end_chunk_without_header_is_missing_header() {
    let mut out = SIGNATURE.to_vec();
    write_chunk(&mut out, b"IEND", &[]).unwrap();
    assert_eq!(DecodedPng::decode(&out, None, false).unwrap_err(), PngError::MissingHeader);
}

#[test]
fn header_validation_errors() {
    let idat = zlib(&[0, 1, 2, 3, 4]);
    let cases = [
        (header(1, 1, 8, 6, 1, 1, 0), PngError::UnsupportedCompression),
        (header(1, 1, 8, 6, 0, 0, 1), PngError::Interlaced),
        (header(1, 1, 16, 6, 0, 0, 0), PngError::UnsupportedBitDepth),
        (header(1, 1, 8, 3, 0, 0, 0), PngError::UnsupportedColorType),
        (header(1, 1, 8, 0, 0, 0, 0), PngError::UnsupportedColorType),
    ];
    for (h, e) in cases {
        assert_eq!(DecodedPng::decode(&file(&h, &idat), None, false).unwrap_err(), e);
    }
    let mut short = header(1, 1, 8, 6, 0, 0, 0);
    short.pop();
    assert_eq!(DecodedPng::decode(&file(&short, &idat), None, false).unwrap_err(), PngError::BadHeaderLength);
}

#[test]
fn one_nonzero_method_field_is_tolerated() {
    let idat = zlib(&[0, 1, 2, 3, 4]);
    for h in [header(1, 1, 8, 6, 1, 0, 0), header(1, 1, 8, 6, 0, 1, 0)] {
        assert_eq!(DecodedPng::decode(&file(&h, &idat), None, false).unwrap().rgba, vec![1, 2, 3, 4]);
    }
}

#[test]
fn invalid_zlib_data_fails_to_inflate() {
    let bytes = file(&header(1, 1, 8, 6, 0, 0, 0), &[1, 2, 3, 4, 5]);
    assert_eq!(DecodedPng::decode(&bytes, None, false).unwrap_err(), PngError::InflateFailed);
}

#[test]
fn checksums_are_checked_only_on_request() {
    let mut bytes = image(1, 1, vec![1, 2, 3, 4]).encode(CompressionLevel::Lossless, None).unwrap();
    let last = bytes.len() - 1;
    bytes[last] ^= 0xff;
    assert_eq!(DecodedPng::decode(&bytes, None, true).unwrap_err(), PngError::BadChecksum);
    assert_eq!(DecodedPng::decode(&bytes, None, false).unwrap().rgba, vec![1, 2, 3, 4]);
}

#[test]
fn unknown_chunks_are_skipped_and_data_chunks_joined() {
    let raw = [0u8, 9, 8, 7, 6];
    let z = zlib(&raw);
    let (a, b) = z.split_at(3);
    let mut out = SIGNATURE.to_vec();
    write_chunk(&mut out, b"IHDR", &header(1, 1, 8, 6, 0, 0, 0)).unwrap();
    write_chunk(&mut out, b"tEXt", b"comment").unwrap();
    write_chunk(&mut out, b"IDAT", a).unwrap();
    write_chunk(&mut out, b"IDAT", b).unwrap();
    write_chunk(&mut out, b"IEND", &[]).unwrap();
    assert_eq!(DecodedPng::decode(&out, None, true).unwrap().rgba, vec![9, 8, 7, 6]);
}

#[test]
fn write_chunk_frames_length_tag_payload_crc() {
    let mut out = Vec::new();
    write_chunk(&mut out, b"IEND", &[]).unwrap();
    assert_eq!(out, vec![0, 0, 0, 0, b'I', b'E', b'N', b'D', 0xae, 0x42, 0x60, 0x82]);
    let mut out = vec![1u8];
    write_chunk(&mut out, b"abcd", &[5, 6]).unwrap();
    assert_eq!(&out[..11], &[1, 0, 0, 0, 2, b'a', b'b', b'c', b'd', 5, 6]);
    let crc = crc32fast::hash(b"abcd\x05\x06");
    assert_eq!(&out[11..], &crc.to_be_bytes());
}

#[test]
fn parse_image_type_names_colour_models() {
    assert_eq!(parse_image_type(2, 8), ImageType::Truecolor);
    assert_eq!(parse_image_type(6, 16), ImageType::TruecolorAlpha);
    assert_eq!(parse_image_type(0, 4), ImageType::Grayscale);
    assert_eq!(parse_image_type(3, 16), ImageType::Unknown);
    assert_eq!(parse_image_type(4, 8), ImageType::GrayscaleAlpha);
    assert_eq!(parse_image_type(3, 1), ImageType::IndexedColor);
    assert_eq!(parse_image_type(7, 8), ImageType::Unknown);
}

#[test]
fn encoded_stream_uses_the_levels_compressor() {
    let img = image(4, 4, sample_rgba(4, 4));
    let (ct, stream) = img.prepare_scanlines(CompressionLevel::Lossless);
    assert_eq!(ct, 6);
    assert_eq!(stream.len(), 4 * (1 + 4 * 4));
    let bytes = img.encode(CompressionLevel::Lossless, None).unwrap();
    // The image data chunk starts after the signature and the header chunk.
    let len = u32::from_be_bytes([bytes[33], bytes[34], bytes[35], bytes[36]]) as usize;
    let idat = &bytes[41..41 + len];
    assert_ne!(idat, &stream[..]);
    let mut e = flate2::write::ZlibEncoder::new(Vec::new(), flate2::Compression::fast());
    e.write_all(&stream).unwrap();
    assert_eq!(idat, &e.finish().unwrap()[..]);
}

#[test]
fn assemble_png_lays_out_plain_file() {
    let out = png_codec::write::assemble_png(1, 1, 2, &[9, 9, 9], None, &[0u8; 12]).unwrap();
    assert_eq!(&out[..8], &SIGNATURE);
    assert_eq!(&out[8..16], &[0, 0, 0, 13, b'I', b'H', b'D', b'R']);
    assert_eq!(&out[16..29], &[0, 0, 0, 1, 0, 0, 0, 1, 8, 2, 0, 0, 0]);
    assert_eq!(&out[33..44], &[0, 0, 0, 3, b'I', b'D', b'A', b'T', 9, 9, 9]);
    assert_eq!(out.len(), 8 + 25 + 15 + 12);
}

#[test]
fn plain_encoding_keeps_every_byte() {
    let rgba = sample_rgba(5, 2);
    let bytes = image(5, 2, rgba.clone()).encode_plain().unwrap();
    let back = DecodedPng::decode(&bytes, None, true).unwrap();
    // No alpha zeroing here: transparent pixels keep their colour.
    assert_eq!(back.rgba, rgba);
    let opaque = [1u8, 2, 3, 255].repeat(3);
    let bytes = image(3, 1, opaque.clone()).encode_plain().unwrap();
    // Truecolor, one row: filter byte 0 then nine colour bytes.
    assert_eq!(bytes[8 + 8 + 9], 2);
    let back = DecodedPng::decode(&bytes, None, true).unwrap();
    assert_eq!(back.rgba, opaque);
}

#[test]
fn unkeyed_encoding_is_repeatable() {
    let img = image(3, 2, sample_rgba(3, 2));
    for level in [CompressionLevel::Lossless, CompressionLevel::Balanced] {
        assert_eq!(img.encode(level, None).unwrap(), img.encode(level, None).unwrap());
    }
    // With a key, each encoding draws a fresh nonce.
    let key = [5u8; 32];
    assert_ne!(
        img.encode(CompressionLevel::Lossless, Some(&key)).unwrap(),
        img.encode(CompressionLevel::Lossless, Some(&key)).unwrap()
    );
}
