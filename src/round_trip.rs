//! What the encoder writes, the decoder reads back.
use vstd::prelude::*;

use crate::backend::{aes256gcm_sealed, crc32_of, zlib_deflated, zlib_inflated};
use crate::chunk::{
    be_bytes, be_u32, chunk_bytes, header_of, header_payload, idat_tag, iend_tag, ihdr_tag,
    image_type_of, lemma_be_round_trip, signature,
};
use crate::filter::{filtered_row, lemma_filter_inverse, lemma_reconstructs_unique, recon_row};
use crate::optimization::{best_filter, lemma_best_filter_is_first_minimum};
use crate::read::{
    bpp_of, decoded, expand_rgb, filters_valid, idat_piece, lemma_mul_step, pixels_from_scanlines,
    scan_chunks, unfiltered_rows,
};
use crate::types::{CompressionLevel, PngError, PngInfo};
use crate::write::{
    bpp_for, color_type_for, compressed_ok, encodes_to, filtered_stream, idat_for,
    needs_alpha, packed_pixels, written_with, pixel_alpha, plain_scanlines, plain_stream, png_file, preprocessed,
    scanline_stream, seal_sound,
};
use vstd::arithmetic::div_mod::lemma_fundamental_div_mod_converse;

verus! {

/// The header the encoder writes for an image of the given size and colour type.
pub open spec fn written_header(width: u32, height: u32, color_type: u8) -> PngInfo {
    PngInfo {
        width,
        height,
        bit_depth: 8,
        color_type,
        interlace: 0,
        image_type: image_type_of(color_type, 8),
    }
}

/// A chunk framed at `pos` reads back as its length, tag, payload and checksum.
proof fn lemma_chunk_at(b: Seq<u8>, pos: int, tag: Seq<u8>, data: Seq<u8>)
    requires
        tag.len() == 4,
        data.len() <= u32::MAX,
        0 <= pos,
        pos + 12 + data.len() <= b.len(),
        b.subrange(pos, pos + 12 + data.len()) == chunk_bytes(tag, data),
    ensures
        be_u32(b, pos) == data.len(),
        b.subrange(pos + 4, pos + 8) == tag,
        b.subrange(pos + 8, pos + 8 + data.len()) == data,
        be_u32(b, pos + 8 + data.len()) == crc32_of(tag + data),
{
    let c = chunk_bytes(tag, data);
    let n = data.len() as int;
    let crc = crc32_of(tag + data);
    lemma_be_round_trip(n as u32);
    lemma_be_round_trip(crc);
    assert(c.len() == 12 + n);
    assert forall|i: int| 0 <= i < 12 + n implies b[pos + i] == #[trigger] c[i] by {
        assert(b.subrange(pos, pos + 12 + n)[i] == b[pos + i]);
    }
    assert(c.subrange(0, 4) =~= be_bytes(n as u32));
    assert(b[pos] == c[0] && b[pos + 1] == c[1] && b[pos + 2] == c[2] && b[pos + 3] == c[3]);
    assert(be_u32(b, pos) == be_u32(be_bytes(n as u32), 0));
    assert(b.subrange(pos + 4, pos + 8) =~= tag) by {
        assert forall|i: int| 0 <= i < 4 implies b.subrange(pos + 4, pos + 8)[i] == tag[i] by {
            assert(b[pos + 4 + i] == c[4 + i]);
        }
    }
    assert(b.subrange(pos + 8, pos + 8 + n) =~= data) by {
        assert forall|i: int| 0 <= i < n implies b.subrange(pos + 8, pos + 8 + n)[i] == data[i] by {
            assert(b[pos + 8 + i] == c[8 + i]);
        }
    }
    let m = pos + 8 + n;
    assert(b[m] == c[8 + n] && b[m + 1] == c[9 + n] && b[m + 2] == c[10 + n] && b[m + 3] == c[11 + n]);
    assert(c.subrange(8 + n, 12 + n) =~= be_bytes(crc));
    assert(be_u32(b, m) == be_u32(be_bytes(crc), 0));
}

/// The header payload the encoder writes parses back to the written header.
proof fn lemma_header_round_trip(width: u32, height: u32, color_type: u8)
    requires
        color_type == 2 || color_type == 6,
    ensures
        header_of(header_payload(width, height, color_type)) == Ok::<PngInfo, PngError>(written_header(width, height, color_type)),
{
    let d = header_payload(width, height, color_type);
    lemma_be_round_trip(width);
    lemma_be_round_trip(height);
    assert(d.subrange(0, 4) =~= be_bytes(width));
    assert(d.subrange(4, 8) =~= be_bytes(height));
    assert(be_u32(d, 0) == be_u32(be_bytes(width), 0));
    assert(be_u32(d, 4) == be_u32(be_bytes(height), 0));
}

proof fn lemma_tags_distinct()
    ensures
        ihdr_tag() != idat_tag(),
        ihdr_tag() != iend_tag(),
        idat_tag() != iend_tag(),
        ihdr_tag().len() == 4,
        idat_tag().len() == 4,
        iend_tag().len() == 4,
{
    assert(ihdr_tag()[1] != idat_tag()[1]);
    assert(ihdr_tag()[1] != iend_tag()[1]);
    assert(idat_tag()[2] != iend_tag()[2]);
}

/// The image data payload the encoder writes opens back to the compressed
/// stream under the same key.
proof fn lemma_idat_round_trip(key: Option<Seq<u8>>, nonce: Seq<u8>, comp: Seq<u8>)
    requires
        nonce.len() == 12,
        key matches Some(k) ==> seal_sound(k, nonce, comp),
    ensures
        idat_piece(key, idat_for(key, nonce, comp)) == Ok::<Seq<u8>, PngError>(comp),
{
    if let Some(k) = key {
        let p = idat_for(key, nonce, comp);
        let sealed = aes256gcm_sealed(k, nonce, comp);
        assert(p.subrange(0, 12) =~= nonce);
        assert(p.subrange(12, p.len() as int) =~= sealed);
    }
}

/// Scanning the chunks of a file the encoder wrote finds the written header
/// and the compressed stream.
proof fn lemma_scan_written_file(
    width: u32,
    height: u32,
    color_type: u8,
    key: Option<Seq<u8>>,
    nonce: Seq<u8>,
    comp: Seq<u8>,
    check_crc: bool,
)
    requires
        color_type == 2 || color_type == 6,
        nonce.len() == 12,
        key matches Some(k) ==> seal_sound(k, nonce, comp),
        idat_for(key, nonce, comp).len() <= u32::MAX,
    ensures
        ({
            let out = png_file(width, height, color_type, idat_for(key, nonce, comp));
            &&& out.len() >= 8
            &&& out.subrange(0, 8) == signature()
            &&& scan_chunks(out, 8, key, check_crc, None, Seq::empty()) == Ok::<(Option<PngInfo>, Seq<u8>), PngError>(
                (Some(written_header(width, height, color_type)), comp),
            )
        }),
{
    let payload = idat_for(key, nonce, comp);
    let hp = header_payload(width, height, color_type);
    let c1 = chunk_bytes(ihdr_tag(), hp);
    let c2 = chunk_bytes(idat_tag(), payload);
    let c3 = chunk_bytes(iend_tag(), Seq::empty());
    let out = png_file(width, height, color_type, payload);
    lemma_tags_distinct();
    assert(hp.len() == 13);
    let at_header: int = 8;
    let at_data: int = at_header + 12 + 13;
    let at_end: int = at_data + 12 + payload.len();
    assert(out =~= signature() + c1 + c2 + c3);
    assert(out.len() == at_end + 12);
    assert(out.subrange(0, 8) =~= signature());
    assert(out.subrange(at_header, at_data) =~= c1);
    assert(out.subrange(at_data, at_end) =~= c2);
    assert(out.subrange(at_end, at_end + 12) =~= c3);
    lemma_chunk_at(out, at_header, ihdr_tag(), hp);
    lemma_chunk_at(out, at_data, idat_tag(), payload);
    lemma_chunk_at(out, at_end, iend_tag(), Seq::empty());
    lemma_header_round_trip(width, height, color_type);
    lemma_idat_round_trip(key, nonce, comp);
    let info = written_header(width, height, color_type);
    assert(Seq::<u8>::empty() + comp =~= comp);
    assert(scan_chunks(out, at_end, key, check_crc, Some(info), comp) == Ok::<(Option<PngInfo>, Seq<u8>), PngError>((Some(info), comp)));
    assert(scan_chunks(out, at_data, key, check_crc, Some(info), Seq::empty()) == scan_chunks(out, at_end, key, check_crc, Some(info), comp));
    assert(scan_chunks(out, at_header, key, check_crc, None, Seq::empty()) == scan_chunks(out, at_data, key, check_crc, Some(info), Seq::empty()));
}

/// Filtering `h` rows with the chosen kinds and reconstructing them gives
/// the rows back; the stream has one filter byte per row, each in 0..=4.
proof fn lemma_stream_round_trip(data: Seq<u8>, rb: int, bpp: int, prev: Seq<u8>, h: nat)
    requires
        rb >= 0,
        bpp > 0,
        data.len() == h * rb,
    ensures
        filtered_stream(data, rb, bpp, prev, h).len() == h * (1 + rb),
        filters_valid(filtered_stream(data, rb, bpp, prev, h), rb, h),
        unfiltered_rows(filtered_stream(data, rb, bpp, prev, h), rb, bpp, prev, h) == data,
    decreases h,
{
    let s = filtered_stream(data, rb, bpp, prev, h);
    if h == 0 {
        assert(data =~= Seq::<u8>::empty());
    } else {
        lemma_mul_step((h - 1) as int, rb);
        lemma_mul_step((h - 1) as int, 1 + rb);
        let row = data.subrange(0, rb);
        let rest = data.subrange(rb, data.len() as int);
        let f = best_filter(bpp, row, prev);
        lemma_best_filter_is_first_minimum(bpp, row, prev);
        let fr = filtered_row(f, bpp, row, prev);
        let s_rest = filtered_stream(rest, rb, bpp, row, (h - 1) as nat);
        lemma_stream_round_trip(rest, rb, bpp, row, (h - 1) as nat);
        assert(s == seq![f] + fr + s_rest);
        assert(s[0] == f);
        assert(s.subrange(1, 1 + rb) =~= fr);
        assert(s.subrange(1 + rb, s.len() as int) =~= s_rest);
        let rec = recon_row(f, bpp, fr, prev);
        lemma_reconstructs_unique(f, bpp, fr, prev, rec);
        lemma_filter_inverse(f, bpp, row, prev, rec);
        assert(row + rest =~= data);
    }
}

/// Three-byte serialisation followed by expansion with opaque alpha gives
/// back pixels that are all opaque.
proof fn lemma_expand_packed(px: Seq<u8>)
    requires
        px.len() % 4 == 0,
        !needs_alpha(px),
    ensures
        expand_rgb(packed_pixels(px, 3)) == px,
{
    let m = px.len() / 4;
    let packed = packed_pixels(px, 3);
    assert(packed.len() == 3 * m);
    assert(packed.len() / 3 == m);
    let e = expand_rgb(packed);
    assert(e.len() == px.len());
    assert forall|i: int| 0 <= i < px.len() implies e[i] == px[i] by {
        let q = i / 4;
        let r = i % 4;
        assert(i == 4 * q + r);
        if r == 3 {
            assert(pixel_alpha(px, q) == 255);
        } else {
            let j = 3 * q + r;
            lemma_fundamental_div_mod_converse(j, 3, q, r);
            assert(j < 3 * m);
            assert(packed[j] == px[(j / 3) * 4 + j % 3]);
        }
    }
    assert(e =~= px);
}

/// Preprocessing keeps the length of a buffer of whole pixels.
proof fn lemma_preprocessed_len(rgba: Seq<u8>, level: CompressionLevel)
    requires
        rgba.len() % 4 == 0,
    ensures
        preprocessed(rgba, level).len() == rgba.len(),
{
}

/// Decoding a file that the encoder wrote for an image, with the key it was
/// written with (or none), gives the header the encoder wrote and exactly the
/// pixels after the level's preprocessing: at the Lossless level, every pixel
/// with nonzero alpha as it was, and every fully transparent pixel as
/// (0, 0, 0, 0). This holds whether or not checksums are checked.
pub proof fn lemma_encode_decode_round_trip(
    width: u32,
    height: u32,
    rgba: Seq<u8>,
    level: CompressionLevel,
    key: Option<Seq<u8>>,
    out: Seq<u8>,
    check_crc: bool,
)
    requires
        rgba.len() == width * height * 4,
        encodes_to(width, height, rgba, level, key, out),
    ensures
        decoded(out, key, check_crc) == Ok::<(PngInfo, Seq<u8>), PngError>(
            (written_header(width, height, color_type_for(preprocessed(rgba, level))), preprocessed(rgba, level)),
        ),
{
    let px = preprocessed(rgba, level);
    let ct = color_type_for(px);
    let bpp = bpp_for(px);
    let stream = scanline_stream(width, height, rgba, level);
    let comp = choose|c: Seq<u8>|
        #[trigger] compressed_ok(level, stream, c) && written_with(width, height, ct, key, c, out);
    let nonce: Seq<u8> = match key {
        None => Seq::new(12, |i: int| 0u8),
        Some(k) => choose|n: Seq<u8>|
            n.len() == 12 && seal_sound(k, n, comp) && out == png_file(width, height, ct, #[trigger] idat_for(key, n, comp)),
    };
    assert(out == png_file(width, height, ct, idat_for(key, nonce, comp)));
    lemma_scan_written_file(width, height, ct, key, nonce, comp, check_crc);
    let info = written_header(width, height, ct);
    assert(bpp_of(info.image_type) == bpp);
    let rb = width * bpp;
    assert(rgba.len() % 4 == 0) by (nonlinear_arith)
        requires
            rgba.len() == width * height * 4,
    ;
    lemma_preprocessed_len(rgba, level);
    let data = packed_pixels(px, bpp);
    assert(data.len() == height * rb) by (nonlinear_arith)
        requires
            bpp == 4 ==> data.len() == px.len(),
            bpp == 3 ==> data.len() == (px.len() / 4) * 3,
            px.len() == width * height * 4,
            bpp == 3 || bpp == 4,
            rb == width * bpp,
    ;
    assert(rb >= 0) by (nonlinear_arith)
        requires
            rb == width * bpp,
            bpp > 0,
    ;
    lemma_stream_round_trip(data, rb, bpp, Seq::empty(), height as nat);
    if bpp == 3 {
        lemma_expand_packed(px);
    }
    assert(pixels_from_scanlines(info, stream) == Ok::<Seq<u8>, PngError>(px));
}

/// Unfiltered rows reconstruct to themselves; the stream has filter byte 0
/// before each row.
proof fn lemma_plain_stream_round_trip(data: Seq<u8>, rb: int, bpp: int, prev: Seq<u8>, h: nat)
    requires
        rb >= 0,
        bpp > 0,
        data.len() == h * rb,
    ensures
        plain_stream(data, rb, h).len() == h * (1 + rb),
        filters_valid(plain_stream(data, rb, h), rb, h),
        unfiltered_rows(plain_stream(data, rb, h), rb, bpp, prev, h) == data,
    decreases h,
{
    let s = plain_stream(data, rb, h);
    if h == 0 {
        assert(data =~= Seq::<u8>::empty());
    } else {
        lemma_mul_step((h - 1) as int, rb);
        lemma_mul_step((h - 1) as int, 1 + rb);
        let row = data.subrange(0, rb);
        let rest = data.subrange(rb, data.len() as int);
        let s_rest = plain_stream(rest, rb, (h - 1) as nat);
        lemma_plain_stream_round_trip(rest, rb, bpp, row, (h - 1) as nat);
        assert(s == seq![0u8] + row + s_rest);
        assert(s[0] == 0);
        assert(s.subrange(1, 1 + rb) =~= row);
        assert(s.subrange(1 + rb, s.len() as int) =~= s_rest);
        assert(filtered_row(0, bpp, row, prev) =~= row);
        let rec = recon_row(0, bpp, row, prev);
        lemma_reconstructs_unique(0, bpp, row, prev, rec);
        lemma_filter_inverse(0, bpp, row, prev, rec);
        assert(row + rest =~= data);
    }
}

/// Decoding a file that the plain encoder wrote gives back the image's
/// pixels exactly, byte for byte, whether or not checksums are checked.
pub proof fn lemma_plain_encode_decode_round_trip(
    width: u32,
    height: u32,
    rgba: Seq<u8>,
    out: Seq<u8>,
    check_crc: bool,
)
    requires
        rgba.len() == width * height * 4,
        zlib_inflated(zlib_deflated(plain_scanlines(width, height, rgba), 6)) == Some(plain_scanlines(width, height, rgba)),
        zlib_deflated(plain_scanlines(width, height, rgba), 6).len() <= u32::MAX,
        out == png_file(width, height, color_type_for(rgba), zlib_deflated(plain_scanlines(width, height, rgba), 6)),
    ensures
        decoded(out, None, check_crc) == Ok::<(PngInfo, Seq<u8>), PngError>(
            (written_header(width, height, color_type_for(rgba)), rgba),
        ),
{
    let ct = color_type_for(rgba);
    let bpp = bpp_for(rgba);
    let stream = plain_scanlines(width, height, rgba);
    let comp = zlib_deflated(stream, 6);
    let nonce: Seq<u8> = Seq::new(12, |i: int| 0u8);
    assert(idat_for(None, nonce, comp) == comp);
    lemma_scan_written_file(width, height, ct, None, nonce, comp, check_crc);
    let info = written_header(width, height, ct);
    assert(bpp_of(info.image_type) == bpp);
    let rb = width * bpp;
    assert(rgba.len() % 4 == 0) by (nonlinear_arith)
        requires
            rgba.len() == width * height * 4,
    ;
    let data = packed_pixels(rgba, bpp);
    assert(data.len() == height * rb) by (nonlinear_arith)
        requires
            bpp == 4 ==> data.len() == rgba.len(),
            bpp == 3 ==> data.len() == (rgba.len() / 4) * 3,
            rgba.len() == width * height * 4,
            bpp == 3 || bpp == 4,
            rb == width * bpp,
    ;
    assert(rb >= 0) by (nonlinear_arith)
        requires
            rb == width * bpp,
            bpp > 0,
    ;
    lemma_plain_stream_round_trip(data, rb, bpp, Seq::empty(), height as nat);
    if bpp == 3 {
        lemma_expand_packed(rgba);
    }
    assert(pixels_from_scanlines(info, stream) == Ok::<Seq<u8>, PngError>(rgba));
}

} // verus!
