//! The decoder: signature, chunk scan, optional decryption of the image
//! data, inflation, row reconstruction and expansion to RGBA.
use vstd::prelude::*;

use crate::backend::{
    aes256gcm_open, aes256gcm_opened, crc32, crc32_of, zlib_inflate, zlib_inflated,
};
use crate::chunk::{
    be_u32, header_of, idat_bytes, idat_tag, iend_bytes, iend_tag, ihdr_bytes, ihdr_tag,
    parse_header, read_be_u32, signature, signature_bytes,
};
use crate::filter::{recon_row, unfilter_row, prev_vec_seq};
use crate::types::{DecodedPng, ImageType, Pixel, PngError, PngInfo};

verus! {

/// A key as the sequence of its bytes.
pub open spec fn key_seq(key: Option<&[u8; 32]>) -> Option<Seq<u8>> {
    match key {
        Some(k) => Some(k@),
        None => None,
    }
}

/// What one image data chunk adds to the compressed stream: its payload, or,
/// with a key, the payload after its twelve-byte nonce opened with that key
/// and nonce. A keyed payload of at most twelve bytes cannot be opened.
pub open spec fn idat_piece(key: Option<Seq<u8>>, data: Seq<u8>) -> Result<Seq<u8>, PngError> {
    match key {
        None => Ok(data),
        Some(k) => {
            if data.len() <= 12 {
                Err(PngError::DecryptFailed)
            } else {
                match aes256gcm_opened(k, data.subrange(0, 12), data.subrange(12, data.len() as int)) {
                    Some(p) => Ok(p),
                    None => Err(PngError::DecryptFailed),
                }
            }
        },
    }
}

/// The chunks from `pos` on, read in order until the end chunk, with the header
/// found so far and the image data gathered so far. Unknown chunks are skipped;
/// input that ends before the end chunk is truncated.
pub open spec fn scan_chunks(
    b: Seq<u8>,
    pos: int,
    key: Option<Seq<u8>>,
    check_crc: bool,
    hdr: Option<PngInfo>,
    idat: Seq<u8>,
) -> Result<(Option<PngInfo>, Seq<u8>), PngError>
    decreases b.len() - pos,
{
    if pos < 0 || pos + 12 > b.len() {
        Err(PngError::Truncated)
    } else {
        let len = be_u32(b, pos);
        if pos + 12 + len > b.len() {
            Err(PngError::Truncated)
        } else {
            let tag = b.subrange(pos + 4, pos + 8);
            let data = b.subrange(pos + 8, pos + 8 + len);
            let next = pos + 12 + len;
            if check_crc && be_u32(b, pos + 8 + len) != crc32_of(tag + data) as int {
                Err(PngError::BadChecksum)
            } else if tag == ihdr_tag() {
                match header_of(data) {
                    Ok(h) => scan_chunks(b, next, key, check_crc, Some(h), idat),
                    Err(e) => Err(e),
                }
            } else if tag == idat_tag() {
                match idat_piece(key, data) {
                    Ok(p) => scan_chunks(b, next, key, check_crc, hdr, idat + p),
                    Err(e) => Err(e),
                }
            } else if tag == iend_tag() {
                Ok((hdr, idat))
            } else {
                scan_chunks(b, next, key, check_crc, hdr, idat)
            }
        }
    }
}

/// Bytes per pixel in the scanlines of a colour model the decoder admits.
pub open spec fn bpp_of(t: ImageType) -> int {
    if t == ImageType::TruecolorAlpha { 4 } else { 3 }
}

/// Every one of the `h` scanlines (a filter byte and `rb` bytes) has a filter
/// byte in 0..=4.
pub open spec fn filters_valid(raw: Seq<u8>, rb: int, h: nat) -> bool
    decreases h,
{
    h == 0 || (raw[0] <= 4 && filters_valid(raw.subrange(1 + rb, raw.len() as int), rb, (h - 1) as nat))
}

/// The `h` scanlines of `raw` reconstructed in order, each against the one
/// before it (`prev` for the first).
pub open spec fn unfiltered_rows(raw: Seq<u8>, rb: int, bpp: int, prev: Seq<u8>, h: nat) -> Seq<u8>
    decreases h,
{
    if h == 0 {
        Seq::empty()
    } else {
        let row = recon_row(raw[0], bpp, raw.subrange(1, 1 + rb), prev);
        row + unfiltered_rows(raw.subrange(1 + rb, raw.len() as int), rb, bpp, row, (h - 1) as nat)
    }
}

/// Three-byte pixels expanded to four with an opaque alpha.
pub open spec fn expand_rgb(s: Seq<u8>) -> Seq<u8> {
    Seq::new((s.len() / 3) * 4, |i: int| if i % 4 == 3 { 255u8 } else { s[(i / 4) * 3 + i % 4] })
}

/// The RGBA pixels that the inflated scanlines `raw` hold for header `info`,
/// or why they hold none.
pub open spec fn pixels_from_scanlines(info: PngInfo, raw: Seq<u8>) -> Result<Seq<u8>, PngError> {
    let bpp = bpp_of(info.image_type);
    let rb = info.width * bpp;
    let h = info.height as nat;
    if raw.len() != h * (1 + rb) {
        Err(PngError::SizeMismatch)
    } else if !filters_valid(raw, rb, h) {
        Err(PngError::UnsupportedFilter)
    } else {
        let px = unfiltered_rows(raw, rb, bpp, Seq::empty(), h);
        Ok(if bpp == 3 { expand_rgb(px) } else { px })
    }
}

/// What decoding `b` gives: the header and the RGBA pixels, or the first
/// failure.
pub open spec fn decoded(b: Seq<u8>, key: Option<Seq<u8>>, check_crc: bool) -> Result<(PngInfo, Seq<u8>), PngError> {
    if b.len() < 8 || b.subrange(0, 8) != signature() {
        Err(PngError::BadSignature)
    } else {
        match scan_chunks(b, 8, key, check_crc, None, Seq::empty()) {
            Err(e) => Err(e),
            Ok((None, _)) => Err(PngError::MissingHeader),
            Ok((Some(info), idat)) => match zlib_inflated(idat) {
                None => Err(PngError::InflateFailed),
                Some(raw) => match pixels_from_scanlines(info, raw) {
                    Ok(px) => Ok((info, px)),
                    Err(e) => Err(e),
                },
            },
        }
    }
}

/// Scanlines one byte short of what the header implies are refused with a
/// size mismatch rather than reconstructed into a shifted image.
pub proof fn lemma_truncated_scanlines_rejected(info: PngInfo, raw: Seq<u8>)
    requires
        raw.len() > 0,
        raw.len() == info.height * (1 + info.width * bpp_of(info.image_type)),
    ensures
        pixels_from_scanlines(info, raw.drop_last()) == Err::<Seq<u8>, PngError>(PngError::SizeMismatch),
{
}

/// A file whose image data inflates to one byte less than its header implies
/// fails to decode with a size mismatch.
pub proof fn lemma_truncated_stream_fails_decode(
    b: Seq<u8>,
    key: Option<Seq<u8>>,
    check_crc: bool,
    info: PngInfo,
    idat: Seq<u8>,
    raw: Seq<u8>,
)
    requires
        b.len() >= 8,
        b.subrange(0, 8) == signature(),
        scan_chunks(b, 8, key, check_crc, None, Seq::empty()) == Ok::<(Option<PngInfo>, Seq<u8>), PngError>((Some(info), idat)),
        raw.len() > 0,
        raw.len() == info.height * (1 + info.width * bpp_of(info.image_type)),
        zlib_inflated(idat) == Some(raw.drop_last()),
    ensures
        decoded(b, key, check_crc) == Err::<(PngInfo, Seq<u8>), PngError>(PngError::SizeMismatch),
{
    lemma_truncated_scanlines_rejected(info, raw);
}

/// A byte-vector result as a sequence result.
pub open spec fn res_bytes(r: Result<Vec<u8>, PngError>) -> Result<Seq<u8>, PngError> {
    match r {
        Ok(v) => Ok(v@),
        Err(e) => Err(e),
    }
}

/// Whether the four bytes of `tag` are those of `t`.
fn tag_is(tag: &[u8], t: [u8; 4]) -> (r: bool)
    requires
        tag@.len() == 4,
    ensures
        r == (tag@ == t@),
{
    let r = tag[0] == t[0] && tag[1] == t[1] && tag[2] == t[2] && tag[3] == t[3];
    if r {
        assert(tag@ =~= t@);
    }
    r
}

/// The image data one chunk contributes (see `idat_piece`).
fn idat_payload(key: Option<&[u8; 32]>, data: &[u8]) -> (r: Result<Vec<u8>, PngError>)
    ensures
        res_bytes(r) == idat_piece(key_seq(key), data@),
{
    match key {
        None => {
            let mut v: Vec<u8> = Vec::new();
            v.extend_from_slice(data);
            assert(v@ =~= data@);
            Ok(v)
        },
        Some(k) => {
            if data.len() <= 12 {
                return Err(PngError::DecryptFailed);
            }
            let nonce = &data[0..12];
            let sealed = &data[12..data.len()];
            match aes256gcm_open(k, nonce, sealed) {
                Some(p) => Ok(p),
                None => Err(PngError::DecryptFailed),
            }
        },
    }
}

/// Scans the chunks after the signature (see `scan_chunks`).
fn read_chunks(bytes: &[u8], key: Option<&[u8; 32]>, check_crc: bool) -> (r: Result<(Option<PngInfo>, Vec<u8>), PngError>)
    requires
        bytes@.len() >= 8,
    ensures
        match r {
            Ok((h, v)) => scan_chunks(bytes@, 8, key_seq(key), check_crc, None, Seq::empty()) == Ok::<(Option<PngInfo>, Seq<u8>), PngError>((h, v@)),
            Err(e) => scan_chunks(bytes@, 8, key_seq(key), check_crc, None, Seq::empty()) == Err::<(Option<PngInfo>, Seq<u8>), PngError>(e),
        },
{
    let ghost b = bytes@;
    let ghost k = key_seq(key);
    let mut pos: usize = 8;
    let mut hdr: Option<PngInfo> = None;
    let mut idat: Vec<u8> = Vec::new();
    loop
        invariant
            b == bytes@,
            k == key_seq(key),
            8 <= pos <= b.len(),
            scan_chunks(b, 8, k, check_crc, None, Seq::empty()) == scan_chunks(b, pos as int, k, check_crc, hdr, idat@),
        decreases b.len() - pos,
    {
        if bytes.len() - pos < 12 {
            return Err(PngError::Truncated);
        }
        let len = read_be_u32(bytes, pos) as usize;
        if bytes.len() - pos - 12 < len {
            return Err(PngError::Truncated);
        }
        let tag = &bytes[pos + 4..pos + 8];
        let data = &bytes[pos + 8..pos + 8 + len];
        let next = pos + 12 + len;
        if check_crc {
            let mut covered: Vec<u8> = Vec::new();
            covered.extend_from_slice(tag);
            covered.extend_from_slice(data);
            let stored = read_be_u32(bytes, pos + 8 + len);
            if stored != crc32(covered.as_slice()) {
                assert(covered@ =~= tag@ + data@);
                return Err(PngError::BadChecksum);
            }
            assert(covered@ =~= tag@ + data@);
        }
        if tag_is(tag, ihdr_bytes()) {
            match parse_header(data) {
                Ok(h) => {
                    hdr = Some(h);
                },
                Err(e) => {
                    return Err(e);
                },
            }
        } else if tag_is(tag, idat_bytes()) {
            match idat_payload(key, data) {
                Ok(p) => {
                    let ghost before = idat@;
                    idat.extend_from_slice(p.as_slice());
                    assert(idat@ == before + p@);
                },
                Err(e) => {
                    return Err(e);
                },
            }
        } else if tag_is(tag, iend_bytes()) {
            return Ok((hdr, idat));
        }
        pos = next;
    }
}

/// One more row of `b` bytes adds `b` to the total.
pub(crate) proof fn lemma_mul_step(a: int, b: int)
    ensures
        (a + 1) * b == a * b + b,
        a >= 0 && b >= 0 ==> a * b >= 0,
{
    assert((a + 1) * b == a * b + b) by (nonlinear_arith);
    assert(a >= 0 && b >= 0 ==> a * b >= 0) by (nonlinear_arith);
}

/// Reconstructs the inflated scanlines `raw` of an image with header `info`
/// and expands them to RGBA: the length must be exactly what the header
/// implies and every filter byte must be known.
pub fn pixels_from_raw(info: &PngInfo, raw: &[u8]) -> (r: Result<Vec<u8>, PngError>)
    requires
        info.image_type == ImageType::Truecolor || info.image_type == ImageType::TruecolorAlpha,
    ensures
        res_bytes(r) == pixels_from_scanlines(*info, raw@),
{
    let bpp: usize = match info.image_type {
        ImageType::TruecolorAlpha => 4,
        _ => 3,
    };
    let ghost rbi = info.width * bpp_of(info.image_type);
    let ghost hn = info.height as nat;
    let w128 = info.width as u128;
    let h128 = info.height as u128;
    assert(h128 * (1 + w128 * bpp) <= 0x10_0000_0000_0000_0000) by (nonlinear_arith)
        requires
            w128 <= 0xffff_ffff,
            h128 <= 0xffff_ffff,
            bpp <= 4,
    ;
    assert(w128 * bpp <= 0x4_0000_0000) by (nonlinear_arith)
        requires
            w128 <= 0xffff_ffff,
            bpp <= 4,
    ;
    let expected: u128 = h128 * (1 + w128 * (bpp as u128));
    if raw.len() as u128 != expected {
        return Err(PngError::SizeMismatch);
    }
    if info.height == 0 {
        let ghost px = unfiltered_rows(raw@, rbi, bpp as int, Seq::empty(), 0);
        assert(px =~= Seq::<u8>::empty());
        let out: Vec<u8> = Vec::new();
        proof {
            if bpp == 3 {
                assert(expand_rgb(px) =~= out@);
            }
        }
        return Ok(out);
    }
    assert(1 + rbi <= hn * (1 + rbi)) by (nonlinear_arith)
        requires
            hn >= 1,
            rbi >= 0,
    ;
    let rb: usize = info.width as usize * bpp;
    let height: usize = info.height as usize;
    let mut out: Vec<u8> = Vec::new();
    let mut prev: Option<Vec<u8>> = None;
    let mut pos: usize = 0;
    let mut y: usize = 0;
    assert(raw@.subrange(0, raw@.len() as int) =~= raw@);
    while y < height
        invariant
            rbi == info.width * bpp_of(info.image_type),
            hn == info.height as nat,
            rb as int == rbi,
            bpp == 3 || bpp == 4,
            bpp as int == bpp_of(info.image_type),
            height as int == hn,
            raw@.len() == hn * (1 + rbi),
            y <= height,
            pos <= raw@.len(),
            raw@.len() - pos == (hn - y) * (1 + rbi),
            prev matches Some(p) ==> p@.len() == rb,
            filters_valid(raw@, rbi, hn) == filters_valid(raw@.subrange(pos as int, raw@.len() as int), rbi, (hn - y) as nat),
            unfiltered_rows(raw@, rbi, bpp as int, Seq::empty(), hn) == out@ + unfiltered_rows(
                raw@.subrange(pos as int, raw@.len() as int),
                rbi,
                bpp as int,
                prev_vec_seq(prev),
                (hn - y) as nat,
            ),
        decreases height - y,
    {
        let ghost rest = raw@.subrange(pos as int, raw@.len() as int);
        proof {
            lemma_mul_step((hn - y - 1) as int, 1 + rbi);
        }
        let f = raw[pos];
        assert(rest[0] == f);
        if f > 4 {
            assert(!filters_valid(rest, rbi, (hn - y) as nat));
            assert(!filters_valid(raw@, rbi, hn));
            return Err(PngError::UnsupportedFilter);
        }
        let src = &raw[pos + 1..pos + 1 + rb];
        let mut row: Vec<u8> = vec![0u8; rb];
        let ghost pv = prev_vec_seq(prev);
        unfilter_row(f, bpp, src, prev, row.as_mut_slice());
        assert(src@ =~= rest.subrange(1, 1 + rbi));
        assert(rest.subrange(1 + rbi, rest.len() as int) =~= raw@.subrange(pos + 1 + rb, raw@.len() as int));
        let ghost before = out@;
        out.extend_from_slice(row.as_slice());
        assert(before + (row@ + unfiltered_rows(raw@.subrange(pos + 1 + rb, raw@.len() as int), rbi, bpp as int, row@, (hn - y - 1) as nat)) =~= out@ + unfiltered_rows(raw@.subrange(pos + 1 + rb, raw@.len() as int), rbi, bpp as int, row@, (hn - y - 1) as nat));
        prev = Some(row);
        pos = pos + 1 + rb;
        y = y + 1;
    }
    let ghost last = raw@.subrange(pos as int, raw@.len() as int);
    assert(unfiltered_rows(last, rbi, bpp as int, prev_vec_seq(prev), 0) =~= Seq::<u8>::empty());
    assert(out@ =~= unfiltered_rows(raw@, rbi, bpp as int, Seq::empty(), hn));
    if bpp == 3 {
        let len = out.len();
        let n = len / 3;
        let mut rgba: Vec<u8> = Vec::new();
        let mut i: usize = 0;
        while i < n
            invariant
                len == out@.len(),
                n == len / 3,
                3 * n <= len,
                i <= n,
                rgba@.len() == 4 * i,
                forall|j: int| 0 <= j < 4 * i ==> #[trigger] rgba@[j] == expand_rgb(out@)[j],
            decreases n - i,
        {
            rgba.push(out[3 * i]);
            rgba.push(out[3 * i + 1]);
            rgba.push(out[3 * i + 2]);
            rgba.push(255);
            i = i + 1;
        }
        assert(rgba@ =~= expand_rgb(out@));
        Ok(rgba)
    } else {
        Ok(out)
    }
}

impl DecodedPng {
    /// Decodes a whole file held in memory. With `decryption_key` the image
    /// data chunks are opened with it; with `verify_crc` every chunk's
    /// checksum must match. Fails on the first problem and returns no
    /// partial image.
    pub fn decode(bytes: &[u8], decryption_key: Option<&[u8; 32]>, verify_crc: bool) -> (r: Result<DecodedPng, PngError>)
        ensures
            match r {
                Ok(img) => decoded(bytes@, key_seq(decryption_key), verify_crc) == Ok::<(PngInfo, Seq<u8>), PngError>((img.info, img.rgba@)),
                Err(e) => decoded(bytes@, key_seq(decryption_key), verify_crc) == Err::<(PngInfo, Seq<u8>), PngError>(e),
            },
    {
        let sig = signature_bytes();
        if bytes.len() < 8 || !(bytes[0] == sig[0] && bytes[1] == sig[1] && bytes[2] == sig[2] && bytes[3] == sig[3]
            && bytes[4] == sig[4] && bytes[5] == sig[5] && bytes[6] == sig[6] && bytes[7] == sig[7]) {
            proof {
                if bytes@.len() >= 8 && bytes@.subrange(0, 8) == signature() {
                    assert(bytes@.subrange(0, 8)[0] == bytes@[0]);
                    assert(bytes@.subrange(0, 8)[7] == bytes@[7]);
                }
            }
            return Err(PngError::BadSignature);
        }
        assert(bytes@.subrange(0, 8) =~= signature());
        let (hdr, idat) = match read_chunks(bytes, decryption_key, verify_crc) {
            Ok(found) => found,
            Err(e) => {
                return Err(e);
            },
        };
        let info = match hdr {
            Some(info) => info,
            None => {
                return Err(PngError::MissingHeader);
            },
        };
        let raw = match zlib_inflate(idat.as_slice()) {
            Some(raw) => raw,
            None => {
                return Err(PngError::InflateFailed);
            },
        };
        proof {
            lemma_scanned_header_admitted(bytes@, 8, key_seq(decryption_key), verify_crc, None, Seq::empty());
        }
        match pixels_from_raw(&info, raw.as_slice()) {
            Ok(rgba) => Ok(DecodedPng { info, rgba }),
            Err(e) => Err(e),
        }
    }

    /// The pixel at column `x` of row `y`.
    pub fn get(&self, x: u32, y: u32) -> (r: Pixel)
        requires
            self.wf(),
            x < self.info.width,
            y < self.info.height,
        ensures
            ({
                let base = (y as int * self.info.width as int + x as int) * 4;
                &&& r.red == self.rgba@[base]
                &&& r.green == self.rgba@[base + 1]
                &&& r.blue == self.rgba@[base + 2]
                &&& r.alpha == self.rgba@[base + 3]
            }),
    {
        let n = self.rgba.len();
        let w = self.info.width as usize;
        let ghost h = self.info.height as int;
        assert((y as int * w as int + x as int) * 4 + 4 <= w as int * h * 4) by (nonlinear_arith)
            requires
                x < w,
                y < h,
        ;
        assert(y as int * w as int <= (y as int * w as int + x as int) * 4);
        let i = (y as usize) * w + (x as usize);
        let base = i * 4;
        Pixel {
            red: self.rgba[base],
            green: self.rgba[base + 1],
            blue: self.rgba[base + 2],
            alpha: self.rgba[base + 3],
        }
    }
}

/// A header that the chunk scan keeps has passed validation, so its colour
/// model is Truecolor or TruecolorAlpha.
proof fn lemma_scanned_header_admitted(
    b: Seq<u8>,
    pos: int,
    key: Option<Seq<u8>>,
    check_crc: bool,
    hdr: Option<PngInfo>,
    idat: Seq<u8>,
)
    requires
        hdr matches Some(h) ==> h.image_type == ImageType::Truecolor || h.image_type == ImageType::TruecolorAlpha,
    ensures
        scan_chunks(b, pos, key, check_crc, hdr, idat) matches Ok((Some(h), _)) ==> h.image_type == ImageType::Truecolor
            || h.image_type == ImageType::TruecolorAlpha,
    decreases b.len() - pos,
{
    if pos >= 0 && pos + 12 <= b.len() {
        let len = be_u32(b, pos);
        if pos + 12 + len <= b.len() {
            let tag = b.subrange(pos + 4, pos + 8);
            let data = b.subrange(pos + 8, pos + 8 + len);
            let next = pos + 12 + len;
            if tag == ihdr_tag() {
                if let Ok(h) = header_of(data) {
                    lemma_scanned_header_admitted(b, next, key, check_crc, Some(h), idat);
                }
            } else if tag == idat_tag() {
                if let Ok(p) = idat_piece(key, data) {
                    lemma_scanned_header_admitted(b, next, key, check_crc, hdr, idat + p);
                }
            } else {
                lemma_scanned_header_admitted(b, next, key, check_crc, hdr, idat);
            }
        }
    }
}

} // verus!
