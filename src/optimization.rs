//! Encode-side preprocessing: alpha zeroing, colour quantisation and the
//! per-row choice of filter.
use vstd::prelude::*;

use crate::filter::{apply_filter, filtered_row, prev_seq};

verus! {

/// The pixels of `s` (whole pixels only) with the colour of every fully
/// transparent pixel forced to black.
pub open spec fn alpha_zeroed(s: Seq<u8>) -> Seq<u8> {
    Seq::new(
        (s.len() / 4) * 4,
        |i: int|
            if s[i - i % 4 + 3] == 0 {
                0u8
            } else {
                s[i]
            },
    )
}

/// Forces the colour of every pixel whose alpha is 0 to (0, 0, 0); other
/// pixels are copied. A trailing partial pixel is dropped.
pub fn optimize_alpha_channel(rgba: &[u8]) -> (r: Vec<u8>)
    ensures
        r@ == alpha_zeroed(rgba@),
{
    let len = rgba.len();
    let n = len / 4;
    let mut out: Vec<u8> = Vec::with_capacity(n * 4);
    let mut k: usize = 0;
    while k < n
        invariant
            len == rgba@.len(),
            n == len / 4,
            4 * n <= len,
            k <= n,
            out@.len() == 4 * k,
            forall|i: int| 0 <= i < 4 * k ==> #[trigger] out@[i] == alpha_zeroed(rgba@)[i],
        decreases n - k,
    {
        let a = rgba[4 * k + 3];
        if a == 0 {
            out.push(0);
            out.push(0);
            out.push(0);
            out.push(0);
        } else {
            out.push(rgba[4 * k]);
            out.push(rgba[4 * k + 1]);
            out.push(rgba[4 * k + 2]);
            out.push(a);
        }
        k = k + 1;
    }
    assert(out@ =~= alpha_zeroed(rgba@));
    out
}

/// The magnitude of a byte read as a two's-complement signed value.
pub open spec fn signed_magnitude(b: u8) -> int {
    if b < 128 { b as int } else { 256 - b }
}

/// The sum of the signed magnitudes of the bytes of `s`.
pub open spec fn row_score(s: Seq<u8>) -> int
    decreases s.len(),
{
    if s.len() == 0 {
        0
    } else {
        row_score(s.drop_last()) + signed_magnitude(s.last())
    }
}

proof fn lemma_row_score_bound(s: Seq<u8>)
    ensures
        0 <= row_score(s) <= 128 * s.len(),
    decreases s.len(),
{
    if s.len() > 0 {
        lemma_row_score_bound(s.drop_last());
    }
}

/// The heuristic cost of a filtered row: bytes near zero (as signed values)
/// are cheap.
pub fn score_filtered_row(filtered: &[u8]) -> (r: u64)
    requires
        filtered@.len() <= 0x1_0000_0000_0000,
    ensures
        r as int == row_score(filtered@),
{
    let mut sum: u64 = 0;
    let mut i: usize = 0;
    while i < filtered.len()
        invariant
            i <= filtered@.len(),
            filtered@.len() <= 0x1_0000_0000_0000,
            sum as int == row_score(filtered@.subrange(0, i as int)),
        decreases filtered@.len() - i,
    {
        proof {
            lemma_row_score_bound(filtered@.subrange(0, i as int));
            assert(filtered@.subrange(0, i + 1).drop_last() =~= filtered@.subrange(0, i as int));
        }
        let b = filtered[i];
        let m: u64 = if b < 128 { b as u64 } else { 256 - b as u64 };
        sum = sum + m;
        i = i + 1;
    }
    assert(filtered@.subrange(0, filtered@.len() as int) =~= filtered@);
    sum
}

/// The score of `row` filtered with kind `f`.
pub open spec fn kind_score(f: u8, bpp: int, row: Seq<u8>, prev: Seq<u8>) -> int {
    row_score(filtered_row(f, bpp, row, prev))
}

/// The filter kind chosen for a row: starting from None, each later kind in
/// the order Sub, Up, Average, Paeth replaces the best so far only when its
/// score is strictly lower.
pub open spec fn best_filter(bpp: int, row: Seq<u8>, prev: Seq<u8>) -> u8 {
    best_filter_upto(bpp, row, prev, 4)
}

/// The choice among kinds 0..=k.
pub open spec fn best_filter_upto(bpp: int, row: Seq<u8>, prev: Seq<u8>, k: u8) -> u8
    decreases k,
{
    if k == 0 {
        0
    } else {
        let b = best_filter_upto(bpp, row, prev, (k - 1) as u8);
        if kind_score(k, bpp, row, prev) < kind_score(b, bpp, row, prev) {
            k
        } else {
            b
        }
    }
}

proof fn lemma_best_filter_upto(bpp: int, row: Seq<u8>, prev: Seq<u8>, k: u8)
    requires
        k <= 4,
    ensures
        best_filter_upto(bpp, row, prev, k) <= k,
        forall|f: u8| f <= k ==> kind_score(best_filter_upto(bpp, row, prev, k), bpp, row, prev) <= #[trigger] kind_score(f, bpp, row, prev),
        forall|f: u8| f < best_filter_upto(bpp, row, prev, k) ==> kind_score(best_filter_upto(bpp, row, prev, k), bpp, row, prev) < #[trigger] kind_score(f, bpp, row, prev),
    decreases k,
{
    if k > 0 {
        lemma_best_filter_upto(bpp, row, prev, (k - 1) as u8);
    }
}

/// The chosen filter has the least score of the five, and every kind before
/// it scores strictly more.
pub proof fn lemma_best_filter_is_first_minimum(bpp: int, row: Seq<u8>, prev: Seq<u8>)
    ensures
        best_filter(bpp, row, prev) <= 4,
        forall|f: u8| f <= 4 ==> kind_score(best_filter(bpp, row, prev), bpp, row, prev) <= #[trigger] kind_score(f, bpp, row, prev),
        forall|f: u8| f < best_filter(bpp, row, prev) ==> kind_score(best_filter(bpp, row, prev), bpp, row, prev) < #[trigger] kind_score(f, bpp, row, prev),
{
    lemma_best_filter_upto(bpp, row, prev, 4);
}

/// Picks the filter kind for a row by the score heuristic and returns it
/// with the filtered bytes.
pub fn choose_best_filter(row: &[u8], prev: Option<&[u8]>, bytes_per_pixel: usize) -> (r: (u8, Vec<u8>))
    requires
        row@.len() <= 0x1_0000_0000_0000,
    ensures
        r.0 == best_filter(bytes_per_pixel as int, row@, prev_seq(prev)),
        r.1@ == filtered_row(r.0, bytes_per_pixel as int, row@, prev_seq(prev)),
{
    let ghost bpp = bytes_per_pixel as int;
    let ghost pv = prev_seq(prev);
    let mut best_filter_kind: u8 = 0;
    let mut best_bytes = apply_filter(0, bytes_per_pixel, row, prev);
    let mut best_score = score_filtered_row(best_bytes.as_slice());
    let mut f: u8 = 1;
    while f <= 4
        invariant
            1 <= f <= 5,
            row@.len() <= 0x1_0000_0000_0000,
            pv == prev_seq(prev),
            bpp == bytes_per_pixel as int,
            best_filter_kind == best_filter_upto(bpp, row@, pv, (f - 1) as u8),
            best_bytes@ == filtered_row(best_filter_kind, bpp, row@, pv),
            best_score as int == kind_score(best_filter_kind, bpp, row@, pv),
        decreases 5 - f,
    {
        let bytes = apply_filter(f, bytes_per_pixel, row, prev);
        let s = score_filtered_row(bytes.as_slice());
        assert(best_filter_upto(bpp, row@, pv, f) == if kind_score(f, bpp, row@, pv) < kind_score(
            best_filter_kind,
            bpp,
            row@,
            pv,
        ) {
            f
        } else {
            best_filter_kind
        });
        if s < best_score {
            best_score = s;
            best_filter_kind = f;
            best_bytes = bytes;
        }
        f = f + 1;
    }
    (best_filter_kind, best_bytes)
}

/// One channel value mapped to the lower edge of its quantisation bin,
/// clamped to the largest representable level.
pub open spec fn quantized(value: int, step: int, max_val: int) -> int {
    let q = (value / step) * step;
    if q < max_val { q } else { max_val }
}

/// Quantises one channel value with bin width `step`, clamped to `max_val`.
pub fn quantize_channel(value: u8, step: u8, max_val: u8) -> (r: u8)
    requires
        step > 0,
    ensures
        r as int == quantized(value as int, step as int, max_val as int),
{
    let bin_index = value / step;
    assert(bin_index * step <= value) by (nonlinear_arith)
        requires
            bin_index == value / step,
            step > 0,
    ;
    let q = bin_index * step;
    if q < max_val { q } else { max_val }
}

/// The bin width for `bits` bits per channel: floor(255 / 2^bits).
pub open spec fn quant_step(bits: u8) -> int {
    255int / vstd::arithmetic::power2::pow2(bits as nat) as int
}

/// The largest level for `bits` bits per channel: (2^bits − 1) × step.
pub open spec fn quant_max(bits: u8) -> int {
    (vstd::arithmetic::power2::pow2(bits as nat) as int - 1) * quant_step(bits)
}

/// The pixels of `s` (whole pixels only) with red, green and blue quantised
/// to `bits` bits; alpha is kept.
pub open spec fn quantized_pixels(s: Seq<u8>, bits: u8) -> Seq<u8> {
    Seq::new(
        (s.len() / 4) * 4,
        |i: int|
            if i % 4 == 3 {
                s[i]
            } else {
                quantized(s[i] as int, quant_step(bits), quant_max(bits)) as u8
            },
    )
}

/// Reduces red, green and blue to `bits` bits of precision by uniform
/// quantisation; alpha is untouched. A trailing partial pixel is dropped.
pub fn quantize_colors(rgba: &[u8], bits: u8) -> (r: Vec<u8>)
    requires
        bits <= 7,
    ensures
        r@ == quantized_pixels(rgba@, bits),
{
    let levels: u8 = 1u8 << bits;
    assert(1 <= levels <= 128) by (bit_vector)
        requires
            levels == 1u8 << bits,
            bits <= 7,
    ;
    proof {
        vstd::arithmetic::power2::lemma2_to64();
        assert(levels as int == vstd::arithmetic::power2::pow2(bits as nat)) by {
            vstd::bits::lemma_u8_shl_is_mul(1u8, bits);
        }
    }
    let step = 255 / levels;
    assert((levels - 1) * step <= 255) by (nonlinear_arith)
        requires
            1 <= levels <= 128,
            step == 255u8 / levels,
    ;
    let max_val = ((levels - 1) * step) as u8;
    assert(step > 0) by (nonlinear_arith)
        requires
            1 <= levels <= 128,
            step == 255u8 / levels,
    ;
    let len = rgba.len();
    let n = len / 4;
    let mut out: Vec<u8> = Vec::with_capacity(n * 4);
    let mut k: usize = 0;
    while k < n
        invariant
            len == rgba@.len(),
            n == len / 4,
            4 * n <= len,
            k <= n,
            step > 0,
            step as int == quant_step(bits),
            max_val as int == quant_max(bits),
            out@.len() == 4 * k,
            forall|i: int| 0 <= i < 4 * k ==> #[trigger] out@[i] == quantized_pixels(rgba@, bits)[i],
        decreases n - k,
    {
        out.push(quantize_channel(rgba[4 * k], step, max_val));
        out.push(quantize_channel(rgba[4 * k + 1], step, max_val));
        out.push(quantize_channel(rgba[4 * k + 2], step, max_val));
        out.push(rgba[4 * k + 3]);
        k = k + 1;
    }
    assert(out@ =~= quantized_pixels(rgba@, bits));
    out
}

} // verus!
