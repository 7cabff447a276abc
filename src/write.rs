//! The encoder: preprocessing, serialisation, filter selection, compression,
//! optional encryption of the image data, and the chunk layout.
use vstd::prelude::*;

use crate::backend::{
    aes256gcm_opened, aes256gcm_seal, aes256gcm_sealed, random_nonce, zlib_deflate,
    zlib_deflated, zlib_inflated, zopfli_deflate,
};
use crate::chunk::{
    chunk_bytes, header_bytes, header_payload, iend_tag, idat_bytes, idat_tag, iend_bytes,
    ihdr_bytes, ihdr_tag, signature, signature_bytes, write_chunk,
};
use crate::filter::{filtered_row, prev_seq};
use crate::optimization::{
    alpha_zeroed, best_filter, choose_best_filter, optimize_alpha_channel, quantize_colors,
    quantized_pixels,
};
use crate::read::{key_seq, lemma_mul_step};
use crate::types::{CompressionLevel, DecodedPng, PngError};

verus! {

/// The pixels after the level's quantisation and alpha zeroing.
pub open spec fn preprocessed(rgba: Seq<u8>, level: CompressionLevel) -> Seq<u8> {
    alpha_zeroed(
        match level {
            CompressionLevel::Lossless => rgba,
            CompressionLevel::Balanced => quantized_pixels(rgba, 6),
            CompressionLevel::Maximum => quantized_pixels(rgba, 4),
        },
    )
}

/// The alpha of pixel `k`.
pub open spec fn pixel_alpha(px: Seq<u8>, k: int) -> u8 {
    px[4 * k + 3]
}

/// Some pixel is not fully opaque.
pub open spec fn needs_alpha(px: Seq<u8>) -> bool {
    exists|k: int| 0 <= k < px.len() / 4 && #[trigger] pixel_alpha(px, k) != 255
}

/// Bytes per serialised pixel: four where alpha is needed, else three.
pub open spec fn bpp_for(px: Seq<u8>) -> int {
    if needs_alpha(px) { 4 } else { 3 }
}

/// The colour type written: TruecolorAlpha (6) where alpha is needed, else
/// Truecolor (2).
pub open spec fn color_type_for(px: Seq<u8>) -> u8 {
    if needs_alpha(px) { 6 } else { 2 }
}

/// The pixels serialised with `bpp` bytes each: all four bytes, or the colour
/// bytes alone.
pub open spec fn packed_pixels(px: Seq<u8>, bpp: int) -> Seq<u8> {
    if bpp == 4 {
        px
    } else {
        Seq::new((px.len() / 4) * 3, |i: int| px[(i / 3) * 4 + i % 3])
    }
}

/// The `h` rows of `data` (each `rb` bytes), each as its chosen filter byte
/// and its filtered bytes, filtered against the unfiltered row before it
/// (`prev` for the first).
pub open spec fn filtered_stream(data: Seq<u8>, rb: int, bpp: int, prev: Seq<u8>, h: nat) -> Seq<u8>
    decreases h,
{
    if h == 0 {
        Seq::empty()
    } else {
        let row = data.subrange(0, rb);
        let f = best_filter(bpp, row, prev);
        seq![f] + filtered_row(f, bpp, row, prev) + filtered_stream(
            data.subrange(rb, data.len() as int),
            rb,
            bpp,
            row,
            (h - 1) as nat,
        )
    }
}

/// The `h` rows of `data` (each `rb` bytes), each behind filter byte 0.
pub open spec fn plain_stream(data: Seq<u8>, rb: int, h: nat) -> Seq<u8>
    decreases h,
{
    if h == 0 {
        Seq::empty()
    } else {
        seq![0u8] + data.subrange(0, rb) + plain_stream(data.subrange(rb, data.len() as int), rb, (h - 1) as nat)
    }
}

/// The scanlines the plain encoder compresses: the pixels as they are, with
/// alpha only where some pixel is not opaque, every row unfiltered.
pub open spec fn plain_scanlines(width: u32, height: u32, rgba: Seq<u8>) -> Seq<u8> {
    let bpp = bpp_for(rgba);
    plain_stream(packed_pixels(rgba, bpp), width * bpp, height as nat)
}

/// The filtered scanlines the encoder compresses for an image of the given
/// size and pixels at `level`.
pub open spec fn scanline_stream(width: u32, height: u32, rgba: Seq<u8>, level: CompressionLevel) -> Seq<u8> {
    let px = preprocessed(rgba, level);
    let bpp = bpp_for(px);
    filtered_stream(packed_pixels(px, bpp), width * bpp, bpp, Seq::empty(), height as nat)
}

/// `comp` is a compressed stream that the encoder may write at `level` for
/// `stream`: it inflates back to `stream`, and at the two zlib levels it is
/// the stream that flate2 writes at its fastest (1) or best-ratio (9)
/// setting. At the Maximum level it comes from zopfli (a hundred iterations,
/// no early stop, a single block), whose exact bytes are not fixed.
pub open spec fn compressed_ok(level: CompressionLevel, stream: Seq<u8>, comp: Seq<u8>) -> bool {
    &&& zlib_inflated(comp) == Some(stream)
    &&& level == CompressionLevel::Lossless ==> comp == zlib_deflated(stream, 1)
    &&& level == CompressionLevel::Balanced ==> comp == zlib_deflated(stream, 9)
}

/// The image data payload: the compressed stream, or with a key the nonce
/// followed by the sealed stream.
pub open spec fn idat_for(key: Option<Seq<u8>>, nonce: Seq<u8>, comp: Seq<u8>) -> Seq<u8> {
    match key {
        None => comp,
        Some(k) => nonce + aes256gcm_sealed(k, nonce, comp),
    }
}

/// The refusal, if any, that the lengths force: the cipher takes at most
/// 2^36 bytes, and a chunk payload at most 2^32 − 1.
pub open spec fn encode_limit(key: Option<Seq<u8>>, comp_len: int) -> Option<PngError> {
    match key {
        None => if comp_len > u32::MAX { Some(PngError::ChunkTooLarge) } else { None },
        Some(_) => {
            if comp_len > 0x10_0000_0000 {
                Some(PngError::EncryptFailed)
            } else if 28 + comp_len > u32::MAX {
                Some(PngError::ChunkTooLarge)
            } else {
                None
            }
        },
    }
}

/// A whole file: signature, header chunk, one image data chunk, end chunk.
pub open spec fn png_file(width: u32, height: u32, color_type: u8, idat: Seq<u8>) -> Seq<u8> {
    signature() + chunk_bytes(ihdr_tag(), header_payload(width, height, color_type)) + chunk_bytes(idat_tag(), idat)
        + chunk_bytes(iend_tag(), Seq::empty())
}

/// Sealing `comp` under `k` and `nonce` adds a sixteen-byte tag and opens back
/// to `comp`.
pub open spec fn seal_sound(k: Seq<u8>, nonce: Seq<u8>, comp: Seq<u8>) -> bool {
    &&& aes256gcm_opened(k, nonce, aes256gcm_sealed(k, nonce, comp)) == Some(comp)
    &&& aes256gcm_sealed(k, nonce, comp).len() == comp.len() + 16
}

/// `out` is the file laid out around the compressed stream `comp` for an
/// image of the given size and colour type: `comp` as it is without a key, or
/// sealed under the key with some twelve-byte nonce; the lengths fit.
pub open spec fn written_with(
    width: u32,
    height: u32,
    color_type: u8,
    key: Option<Seq<u8>>,
    comp: Seq<u8>,
    out: Seq<u8>,
) -> bool {
    &&& encode_limit(key, comp.len() as int) is None
    &&& match key {
        None => out == png_file(width, height, color_type, comp),
        Some(k) => exists|nonce: Seq<u8>|
            nonce.len() == 12 && seal_sound(k, nonce, comp) && out == png_file(
                width,
                height,
                color_type,
                #[trigger] idat_for(key, nonce, comp),
            ),
    }
}

/// `out` is a file that the encoder can write for the image at `level`
/// with `key`.
pub open spec fn encodes_to(
    width: u32,
    height: u32,
    rgba: Seq<u8>,
    level: CompressionLevel,
    key: Option<Seq<u8>>,
    out: Seq<u8>,
) -> bool {
    let stream = scanline_stream(width, height, rgba, level);
    exists|comp: Seq<u8>|
        #[trigger] compressed_ok(level, stream, comp) && written_with(
            width,
            height,
            color_type_for(preprocessed(rgba, level)),
            key,
            comp,
            out,
        )
}

/// Whether some pixel is not fully opaque.
fn has_alpha(px: &[u8]) -> (r: bool)
    ensures
        r == needs_alpha(px@),
{
    let len = px.len();
    let n = len / 4;
    let mut k: usize = 0;
    while k < n
        invariant
            len == px@.len(),
            n == len / 4,
            4 * n <= len,
            k <= n,
            forall|j: int| 0 <= j < k ==> #[trigger] pixel_alpha(px@, j) == 255,
        decreases n - k,
    {
        if px[4 * k + 3] != 255 {
            assert(pixel_alpha(px@, k as int) != 255);
            return true;
        }
        k = k + 1;
    }
    false
}

/// Serialises pixels with three or four bytes each.
fn pack_pixels(px: &[u8], bpp: usize) -> (r: Vec<u8>)
    requires
        bpp == 3 || bpp == 4,
        px@.len() % 4 == 0,
    ensures
        r@ == packed_pixels(px@, bpp as int),
{
    let len = px.len();
    let n = len / 4;
    let mut out: Vec<u8> = Vec::new();
    let mut k: usize = 0;
    while k < n
        invariant
            len == px@.len(),
            n == len / 4,
            4 * n == len,
            k <= n,
            bpp == 3 || bpp == 4,
            out@.len() == bpp * k,
            forall|i: int| 0 <= i < bpp * k ==> #[trigger] out@[i] == packed_pixels(px@, bpp as int)[i],
        decreases n - k,
    {
        out.push(px[4 * k]);
        out.push(px[4 * k + 1]);
        out.push(px[4 * k + 2]);
        if bpp == 4 {
            out.push(px[4 * k + 3]);
        }
        k = k + 1;
    }
    assert(out@ =~= packed_pixels(px@, bpp as int));
    out
}

/// Filters each of the `height` rows of `data` with its chosen kind.
fn filter_rows(data: &[u8], rb: usize, bpp: usize, height: usize) -> (r: Vec<u8>)
    requires
        data@.len() == height * rb,
        rb <= 0x1_0000_0000_0000,
    ensures
        r@ == filtered_stream(data@, rb as int, bpp as int, Seq::empty(), height as nat),
{
    let len = data.len();
    let mut out: Vec<u8> = Vec::new();
    let mut pos: usize = 0;
    let mut y: usize = 0;
    assert(data@.subrange(0, data@.len() as int) =~= data@);
    while y < height
        invariant
            len == data@.len(),
            data@.len() == height * rb,
            rb <= 0x1_0000_0000_0000,
            y <= height,
            pos <= data@.len(),
            data@.len() - pos == (height - y) * rb,
            y == 0 ==> pos == 0,
            y > 0 ==> pos >= rb,
            filtered_stream(data@, rb as int, bpp as int, Seq::empty(), height as nat) == out@ + filtered_stream(
                data@.subrange(pos as int, data@.len() as int),
                rb as int,
                bpp as int,
                if y == 0 { Seq::empty() } else { data@.subrange(pos - rb, pos as int) },
                (height - y) as nat,
            ),
        decreases height - y,
    {
        proof {
            lemma_mul_step((height - y - 1) as int, rb as int);
        }
        let ghost rest = data@.subrange(pos as int, data@.len() as int);
        let ghost pv = if y == 0 { Seq::empty() } else { data@.subrange(pos - rb, pos as int) };
        let row = &data[pos..pos + rb];
        let prev: Option<&[u8]> = if y == 0 { None } else { Some(&data[pos - rb..pos]) };
        assert(prev_seq(prev) == pv);
        let (f, bytes) = choose_best_filter(row, prev, bpp);
        assert(row@ =~= rest.subrange(0, rb as int));
        assert(rest.subrange(rb as int, rest.len() as int) =~= data@.subrange(pos + rb, data@.len() as int));
        let ghost before = out@;
        let ghost tail = filtered_stream(data@.subrange(pos + rb, data@.len() as int), rb as int, bpp as int, row@, (height - y - 1) as nat);
        out.push(f);
        out.extend_from_slice(bytes.as_slice());
        assert(before + (seq![f] + bytes@ + tail) =~= out@ + tail);
        pos = pos + rb;
        y = y + 1;
        assert(data@.subrange(pos - rb, pos as int) =~= row@);
    }
    assert(filtered_stream(data@.subrange(pos as int, data@.len() as int), rb as int, bpp as int, if y == 0 { Seq::empty() } else { data@.subrange(pos - rb, pos as int) }, 0) =~= Seq::<u8>::empty());
    assert(out@ =~= filtered_stream(data@, rb as int, bpp as int, Seq::empty(), height as nat));
    out
}

/// Puts filter byte 0 before each of the `height` rows of `data`.
fn plain_rows(data: &[u8], rb: usize, height: usize) -> (r: Vec<u8>)
    requires
        data@.len() == height * rb,
    ensures
        r@ == plain_stream(data@, rb as int, height as nat),
{
    let len = data.len();
    let mut out: Vec<u8> = Vec::new();
    let mut pos: usize = 0;
    let mut y: usize = 0;
    assert(data@.subrange(0, data@.len() as int) =~= data@);
    while y < height
        invariant
            len == data@.len(),
            data@.len() == height * rb,
            y <= height,
            pos <= data@.len(),
            data@.len() - pos == (height - y) * rb,
            plain_stream(data@, rb as int, height as nat) == out@ + plain_stream(
                data@.subrange(pos as int, data@.len() as int),
                rb as int,
                (height - y) as nat,
            ),
        decreases height - y,
    {
        proof {
            lemma_mul_step((height - y - 1) as int, rb as int);
        }
        let ghost rest = data@.subrange(pos as int, data@.len() as int);
        let row = &data[pos..pos + rb];
        assert(row@ =~= rest.subrange(0, rb as int));
        assert(rest.subrange(rb as int, rest.len() as int) =~= data@.subrange(pos + rb, data@.len() as int));
        let ghost before = out@;
        let ghost tail = plain_stream(data@.subrange(pos + rb, data@.len() as int), rb as int, (height - y - 1) as nat);
        out.push(0);
        out.extend_from_slice(row);
        assert(before + (seq![0u8] + row@ + tail) =~= out@ + tail);
        pos = pos + rb;
        y = y + 1;
    }
    assert(plain_stream(data@.subrange(pos as int, data@.len() as int), rb as int, 0) =~= Seq::<u8>::empty());
    assert(out@ =~= plain_stream(data@, rb as int, height as nat));
    out
}

/// Compresses the filtered scanlines with the level's backend.
fn compress_stream(level: CompressionLevel, stream: &[u8]) -> (r: Vec<u8>)
    ensures
        compressed_ok(level, stream@, r@),
{
    match level {
        CompressionLevel::Lossless => zlib_deflate(stream, 1),
        CompressionLevel::Balanced => zlib_deflate(stream, 9),
        CompressionLevel::Maximum => zopfli_deflate(stream, 100, u64::MAX, 1),
    }
}

impl DecodedPng {
    /// The colour type the encoder writes for this image at `level`, and the
    /// filtered scanlines it compresses.
    pub fn prepare_scanlines(&self, level: CompressionLevel) -> (r: (u8, Vec<u8>))
        requires
            self.wf(),
        ensures
            r.0 == color_type_for(preprocessed(self.rgba@, level)),
            r.1@ == scanline_stream(self.info.width, self.info.height, self.rgba@, level),
    {
        let quantized: Vec<u8> = match level {
            CompressionLevel::Lossless => {
                let mut v: Vec<u8> = Vec::new();
                v.extend_from_slice(self.rgba.as_slice());
                v
            },
            CompressionLevel::Balanced => quantize_colors(self.rgba.as_slice(), 6),
            CompressionLevel::Maximum => quantize_colors(self.rgba.as_slice(), 4),
        };
        let px = optimize_alpha_channel(quantized.as_slice());
        assert(px@ =~= preprocessed(self.rgba@, level));
        let alpha = has_alpha(px.as_slice());
        let (color_type, bpp): (u8, usize) = if alpha { (6, 4) } else { (2, 3) };
        let data = pack_pixels(px.as_slice(), bpp);
        let ghost w = self.info.width as int;
        let ghost h = self.info.height as int;
        assert(px@.len() == w * h * 4) by {
            assert((w * h * 4) / 4 * 4 == w * h * 4) by (nonlinear_arith);
        }
        assert(data@.len() == h * (w * bpp)) by (nonlinear_arith)
            requires
                bpp == 4 ==> data@.len() == px@.len(),
                bpp == 3 ==> data@.len() == (px@.len() / 4) * 3,
                px@.len() == w * h * 4,
                bpp == 3 || bpp == 4,
        ;
        assert(w * bpp <= 0x4_0000_0000) by (nonlinear_arith)
            requires
                w <= 0xffff_ffff,
                bpp <= 4,
        ;
        if self.info.height == 0 {
            let empty: Vec<u8> = Vec::new();
            assert(empty@ =~= scanline_stream(self.info.width, self.info.height, self.rgba@, level));
            return (color_type, empty);
        }
        let dlen = data.len();
        assert(w * bpp <= h * (w * bpp)) by (nonlinear_arith)
            requires
                h >= 1,
                w * bpp >= 0,
        ;
        let rb: usize = self.info.width as usize * bpp;
        let stream = filter_rows(data.as_slice(), rb, bpp, self.info.height as usize);
        (color_type, stream)
    }
}

impl DecodedPng {
    /// Encodes the image as it is: no quantisation or alpha zeroing, every
    /// row unfiltered, zlib at its default level, no encryption. Fails only
    /// where the compressed stream is too long for one chunk.
    pub fn encode_plain(&self) -> (r: Result<Vec<u8>, PngError>)
        requires
            self.wf(),
        ensures
            ({
                let stream = plain_scanlines(self.info.width, self.info.height, self.rgba@);
                let comp = zlib_deflated(stream, 6);
                &&& r matches Ok(out) ==> zlib_inflated(comp) == Some(stream) && out@ == png_file(
                    self.info.width,
                    self.info.height,
                    color_type_for(self.rgba@),
                    comp,
                )
                &&& r matches Err(e) ==> e == PngError::ChunkTooLarge
                &&& r is Ok <==> comp.len() <= u32::MAX
            }),
    {
        let alpha = has_alpha(self.rgba.as_slice());
        let (color_type, bpp): (u8, usize) = if alpha { (6, 4) } else { (2, 3) };
        let ghost w = self.info.width as int;
        let ghost h = self.info.height as int;
        assert(self.rgba@.len() % 4 == 0) by (nonlinear_arith)
            requires
                self.rgba@.len() == w * h * 4,
        ;
        let data = pack_pixels(self.rgba.as_slice(), bpp);
        assert(data@.len() == h * (w * bpp)) by (nonlinear_arith)
            requires
                bpp == 4 ==> data@.len() == self.rgba@.len(),
                bpp == 3 ==> data@.len() == (self.rgba@.len() / 4) * 3,
                self.rgba@.len() == w * h * 4,
                bpp == 3 || bpp == 4,
        ;
        let stream = if self.info.height == 0 {
            let empty: Vec<u8> = Vec::new();
            assert(empty@ =~= plain_scanlines(self.info.width, self.info.height, self.rgba@));
            empty
        } else {
            let dlen = data.len();
            assert(w * bpp <= h * (w * bpp)) by (nonlinear_arith)
                requires
                    h >= 1,
                    w * bpp >= 0,
            ;
            let rb: usize = self.info.width as usize * bpp;
            plain_rows(data.as_slice(), rb, self.info.height as usize)
        };
        let comp = zlib_deflate(stream.as_slice(), 6);
        assemble_png(self.info.width, self.info.height, color_type, comp.as_slice(), None, &[])
    }
}

/// Lays out a whole file for an image of the given size and colour type
/// around the compressed scanlines `comp`: sealed under `key` with `nonce`
/// when a key is given (without a key `nonce` is not used). Fails exactly where `encode_limit` says.
pub fn assemble_png(
    width: u32,
    height: u32,
    color_type: u8,
    comp: &[u8],
    key: Option<&[u8; 32]>,
    nonce: &[u8],
) -> (r: Result<Vec<u8>, PngError>)
    requires
        key is Some ==> nonce@.len() == 12,
    ensures
        match r {
            Ok(out) => {
                &&& encode_limit(key_seq(key), comp@.len() as int) is None
                &&& out@ == png_file(width, height, color_type, idat_for(key_seq(key), nonce@, comp@))
                &&& key matches Some(k) ==> seal_sound(k@, nonce@, comp@)
            },
            Err(e) => encode_limit(key_seq(key), comp@.len() as int) == Some(e),
        },
{
    let payload: Vec<u8> = match key {
        None => {
            let mut v: Vec<u8> = Vec::new();
            v.extend_from_slice(comp);
            v
        },
        Some(k) => {
            let sealed = match aes256gcm_seal(k, nonce, comp) {
                Some(c) => c,
                None => {
                    return Err(PngError::EncryptFailed);
                },
            };
            let mut v: Vec<u8> = Vec::new();
            v.extend_from_slice(nonce);
            v.extend_from_slice(sealed.as_slice());
            v
        },
    };
    assert(payload@ =~= idat_for(key_seq(key), nonce@, comp@));
    let mut out = signature_bytes();
    let ghost s0 = out@;
    let header = header_bytes(width, height, color_type);
    let ihdr = ihdr_bytes();
    match write_chunk(&mut out, &ihdr, header.as_slice()) {
        Ok(()) => {},
        Err(e) => {
            return Err(e);
        },
    }
    let idat = idat_bytes();
    match write_chunk(&mut out, &idat, payload.as_slice()) {
        Ok(()) => {},
        Err(e) => {
            return Err(e);
        },
    }
    let empty: Vec<u8> = Vec::new();
    let iend = iend_bytes();
    match write_chunk(&mut out, &iend, empty.as_slice()) {
        Ok(()) => {},
        Err(e) => {
            return Err(e);
        },
    }
    assert(empty@ =~= Seq::<u8>::empty());
    assert(out@ =~= png_file(width, height, color_type, idat_for(key_seq(key), nonce@, comp@)));
    Ok(out)
}

impl DecodedPng {
    /// Encodes the image at `level`, sealing the image data under
    /// `encryption_key` with a fresh random nonce when one is given. For the
    /// stream the level's compressor returned, it fails exactly where the
    /// lengths force a refusal (see `encode_limit`); at the two zlib levels
    /// that stream is fixed by the image.
    pub fn encode(&self, level: CompressionLevel, encryption_key: Option<&[u8; 32]>) -> (r: Result<Vec<u8>, PngError>)
        requires
            self.wf(),
        ensures
            exists|comp: Seq<u8>|
                #[trigger] compressed_ok(
                    level,
                    scanline_stream(self.info.width, self.info.height, self.rgba@, level),
                    comp,
                ) && match r {
                    Ok(out) => written_with(
                        self.info.width,
                        self.info.height,
                        color_type_for(preprocessed(self.rgba@, level)),
                        key_seq(encryption_key),
                        comp,
                        out@,
                    ),
                    Err(e) => encode_limit(key_seq(encryption_key), comp.len() as int) == Some(e),
                },
            r matches Ok(out) ==> encodes_to(
                self.info.width,
                self.info.height,
                self.rgba@,
                level,
                key_seq(encryption_key),
                out@,
            ),
    {
        let (color_type, stream) = self.prepare_scanlines(level);
        let comp = compress_stream(level, stream.as_slice());
        let nonce: Vec<u8> = match encryption_key {
            Some(_) => random_nonce(),
            None => Vec::new(),
        };
        let r = assemble_png(self.info.width, self.info.height, color_type, comp.as_slice(), encryption_key, nonce.as_slice());
        assert(compressed_ok(level, stream@, comp@));
        r
    }
}

} // verus!
