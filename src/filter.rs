//! Scanline filters: the five predictors, their application on encode and
//! their reconstruction on decode.
use vstd::prelude::*;

verus! {

/// |x| over the integers.
pub open spec fn abs(x: int) -> int {
    if x < 0 { -x } else { x }
}

/// The Paeth predictor: of `a`, `b`, `c`, the one closest to `a + b - c`,
/// ties going to `a`, then `b`.
pub open spec fn paeth(a: int, b: int, c: int) -> int {
    let p = a + b - c;
    if abs(p - a) <= abs(p - b) && abs(p - a) <= abs(p - c) {
        a
    } else if abs(p - b) <= abs(p - c) {
        b
    } else {
        c
    }
}

/// The Paeth predictor of left `a`, up `b` and upper-left `c`.
pub fn paeth_predictor(a: u8, b: u8, c: u8) -> (r: u8)
    ensures
        r as int == paeth(a as int, b as int, c as int),
{
    let a = a as i32;
    let b = b as i32;
    let c = c as i32;
    let p = a + b - c;
    let pa = if p >= a { p - a } else { a - p };
    let pb = if p >= b { p - b } else { b - p };
    let pc = if p >= c { p - c } else { c - p };
    if pa <= pb && pa <= pc {
        a as u8
    } else if pb <= pc {
        b as u8
    } else {
        c as u8
    }
}

/// Paeth's result is one of its three arguments and minimises the distance
/// to `a + b - c`; among equally close arguments it is the first in the
/// order a, b, c.
pub proof fn lemma_paeth_tie_broken_minimizer(a: u8, b: u8, c: u8)
    ensures
        ({
            let r = paeth(a as int, b as int, c as int);
            let p = a + b - c;
            let least = if abs(p - a) <= abs(p - b) && abs(p - a) <= abs(p - c) {
                abs(p - a)
            } else if abs(p - b) <= abs(p - c) {
                abs(p - b)
            } else {
                abs(p - c)
            };
            &&& r == a || r == b || r == c
            &&& least <= abs(p - a) && least <= abs(p - b) && least <= abs(p - c)
            &&& abs(p - r) == least
            &&& abs(p - a) == least ==> r == a
            &&& abs(p - a) != least && abs(p - b) == least ==> r == b
        }),
{
}

/// Subtraction of bytes modulo 256.
pub open spec fn byte_sub(x: int, y: int) -> u8 {
    ((x - y) % 256) as u8
}

/// Addition of bytes modulo 256.
pub open spec fn byte_add(x: int, y: int) -> u8 {
    ((x + y) % 256) as u8
}

/// The byte `bpp` places to the left of position `i`, or 0 before the first pixel.
pub open spec fn left_of(s: Seq<u8>, bpp: int, i: int) -> int {
    if i >= bpp { s[i - bpp] as int } else { 0 }
}

/// The byte above position `i`, or 0 where there is no previous row.
pub open spec fn up_of(prev: Seq<u8>, i: int) -> int {
    if 0 <= i < prev.len() { prev[i] as int } else { 0 }
}

/// The byte above and `bpp` places to the left of position `i`, or 0.
pub open spec fn up_left_of(prev: Seq<u8>, bpp: int, i: int) -> int {
    if i >= bpp && i < prev.len() { prev[i - bpp] as int } else { 0 }
}

/// The prediction that filter kind `f` makes from the left, up and
/// upper-left neighbours.
pub open spec fn predict(f: u8, left: int, up: int, up_left: int) -> int {
    if f == 0 {
        0
    } else if f == 1 {
        left
    } else if f == 2 {
        up
    } else if f == 3 {
        (left + up) / 2
    } else {
        paeth(left, up, up_left)
    }
}

/// The previous row as a sequence; an absent row reads as all zeros.
pub open spec fn prev_seq(prev: Option<&[u8]>) -> Seq<u8> {
    match prev {
        Some(p) => p@,
        None => Seq::empty(),
    }
}

/// An owned previous row as a sequence; an absent row reads as all zeros.
pub open spec fn prev_vec_seq(prev: Option<Vec<u8>>) -> Seq<u8> {
    match prev {
        Some(p) => p@,
        None => Seq::empty(),
    }
}

/// The row filtered with kind `f` against the unfiltered previous row `prev`.
pub open spec fn filtered_row(f: u8, bpp: int, row: Seq<u8>, prev: Seq<u8>) -> Seq<u8> {
    Seq::new(
        row.len(),
        |i: int|
            byte_sub(
                row[i] as int,
                predict(f, left_of(row, bpp, i), up_of(prev, i), up_left_of(prev, bpp, i)),
            ),
    )
}

/// `dst` is the reconstruction of filtered row `src` with kind `f`, given the
/// reconstructed previous row `prev`: each byte adds back the prediction made
/// from the bytes already reconstructed.
pub open spec fn reconstructs(f: u8, bpp: int, src: Seq<u8>, prev: Seq<u8>, dst: Seq<u8>) -> bool {
    &&& dst.len() == src.len()
    &&& forall|i: int|
        0 <= i < src.len() ==> #[trigger] dst[i] == byte_add(
            src[i] as int,
            predict(f, left_of(dst, bpp, i), up_of(prev, i), up_left_of(prev, bpp, i)),
        )
}

/// The reconstruction of filtered row `src` of kind `f` against the
/// reconstructed previous row `prev`, built byte by byte from the left.
pub open spec fn recon_row(f: u8, bpp: int, src: Seq<u8>, prev: Seq<u8>) -> Seq<u8>
    decreases src.len(),
{
    if src.len() == 0 {
        Seq::empty()
    } else {
        let init = recon_row(f, bpp, src.drop_last(), prev);
        let i = src.len() - 1;
        init.push(
            byte_add(
                src[i] as int,
                predict(f, left_of(init, bpp, i), up_of(prev, i), up_left_of(prev, bpp, i)),
            ),
        )
    }
}

/// `recon_row` is the one sequence that `reconstructs` describes.
pub proof fn lemma_reconstructs_unique(f: u8, bpp: int, src: Seq<u8>, prev: Seq<u8>, dst: Seq<u8>)
    requires
        bpp > 0,
    ensures
        reconstructs(f, bpp, src, prev, dst) <==> dst == recon_row(f, bpp, src, prev),
    decreases src.len(),
{
    if src.len() > 0 {
        let i = src.len() - 1;
        let init = recon_row(f, bpp, src.drop_last(), prev);
        lemma_reconstructs_unique(f, bpp, src.drop_last(), prev, dst.drop_last());
        lemma_reconstructs_unique(f, bpp, src.drop_last(), prev, init);
        if reconstructs(f, bpp, src, prev, dst) {
            assert forall|j: int| 0 <= j < src.len() - 1 implies #[trigger] dst.drop_last()[j] == byte_add(
                src.drop_last()[j] as int,
                predict(f, left_of(dst.drop_last(), bpp, j), up_of(prev, j), up_left_of(prev, bpp, j)),
            ) by {
                assert(dst[j] == byte_add(
                    src[j] as int,
                    predict(f, left_of(dst, bpp, j), up_of(prev, j), up_left_of(prev, bpp, j)),
                ));
            }
            assert(dst[i] == byte_add(
                src[i] as int,
                predict(f, left_of(dst, bpp, i), up_of(prev, i), up_left_of(prev, bpp, i)),
            ));
            assert(dst =~= recon_row(f, bpp, src, prev));
        }
        if dst == recon_row(f, bpp, src, prev) {
            assert(dst.drop_last() =~= init);
            assert forall|j: int| 0 <= j < src.len() implies #[trigger] dst[j] == byte_add(
                src[j] as int,
                predict(f, left_of(dst, bpp, j), up_of(prev, j), up_left_of(prev, bpp, j)),
            ) by {
                if j < i {
                    assert(dst.drop_last()[j] == byte_add(
                        src.drop_last()[j] as int,
                        predict(f, left_of(dst.drop_last(), bpp, j), up_of(prev, j), up_left_of(prev, bpp, j)),
                    ));
                }
            }
        }
    } else {
        if dst == recon_row(f, bpp, src, prev) {
        }
        if reconstructs(f, bpp, src, prev, dst) {
            assert(dst =~= recon_row(f, bpp, src, prev));
        }
    }
}

/// The prediction of kind `f` for three bytes, as a byte.
fn predictor(f: u8, left: u8, up: u8, up_left: u8) -> (r: u8)
    ensures
        r as int == predict(f, left as int, up as int, up_left as int),
{
    if f == 0 {
        0
    } else if f == 1 {
        left
    } else if f == 2 {
        up
    } else if f == 3 {
        ((left as u16 + up as u16) / 2) as u8
    } else {
        paeth_predictor(left, up, up_left)
    }
}

/// Filters `row` with kind `filter_type` against the unfiltered previous row
/// (none for the first row): each byte minus its prediction, modulo 256.
pub fn apply_filter(filter_type: u8, bytes_per_pixel: usize, row: &[u8], prev_row: Option<&[u8]>) -> (r:
    Vec<u8>)
    requires
        filter_type <= 4,
    ensures
        r@ == filtered_row(filter_type, bytes_per_pixel as int, row@, prev_seq(prev_row)),
{
    let prev: &[u8] = match prev_row {
        Some(p) => p,
        None => &[],
    };
    let ghost pv = prev_seq(prev_row);
    assert(prev@ == pv);
    let mut filtered: Vec<u8> = Vec::with_capacity(row.len());
    let mut i: usize = 0;
    while i < row.len()
        invariant
            i <= row@.len(),
            filter_type <= 4,
            prev@ == pv,
            filtered@.len() == i,
            forall|j: int|
                0 <= j < i ==> #[trigger] filtered@[j] == filtered_row(
                    filter_type,
                    bytes_per_pixel as int,
                    row@,
                    pv,
                )[j],
        decreases row@.len() - i,
    {
        let left: u8 = if i >= bytes_per_pixel { row[i - bytes_per_pixel] } else { 0 };
        let up: u8 = if i < prev.len() { prev[i] } else { 0 };
        let up_left: u8 = if i >= bytes_per_pixel && i < prev.len() {
            prev[i - bytes_per_pixel]
        } else {
            0
        };
        let p = predictor(filter_type, left, up, up_left);
        filtered.push(row[i].wrapping_sub(p));
        i = i + 1;
    }
    assert(filtered@ =~= filtered_row(filter_type, bytes_per_pixel as int, row@, pv));
    filtered
}

/// Reconstructs filtered row `src` of kind `filter_type` into `dst`, given
/// the reconstructed previous row (none, read as zeros, for the first row).
pub fn unfilter_row(
    filter_type: u8,
    bytes_per_pixel: usize,
    src: &[u8],
    prev: Option<Vec<u8>>,
    dst: &mut [u8],
)
    requires
        filter_type <= 4,
        bytes_per_pixel > 0,
        old(dst)@.len() == src@.len(),
        prev matches Some(p) ==> p@.len() >= src@.len(),
    ensures
        reconstructs(
            filter_type,
            bytes_per_pixel as int,
            src@,
            prev_vec_seq(prev),
            final(dst)@,
        ),
        final(dst)@ == recon_row(filter_type, bytes_per_pixel as int, src@, prev_vec_seq(prev)),
{
    let ghost pv: Seq<u8> = prev_vec_seq(prev);
    let prev: Vec<u8> = match prev {
        Some(p) => p,
        None => vec![0u8; src.len()],
    };
    let n = src.len();
    let mut i: usize = 0;
    while i < n
        invariant
            n == src@.len(),
            i <= n,
            dst@.len() == n,
            prev@.len() >= n,
            filter_type <= 4,
            bytes_per_pixel > 0,
            forall|j: int| 0 <= j < n ==> up_of(prev@, j) == up_of(pv, j),
            forall|j: int| 0 <= j < n ==> up_left_of(prev@, bytes_per_pixel as int, j) == up_left_of(pv, bytes_per_pixel as int, j),
            forall|j: int|
                0 <= j < i ==> #[trigger] dst@[j] == byte_add(
                    src@[j] as int,
                    predict(
                        filter_type,
                        left_of(dst@, bytes_per_pixel as int, j),
                        up_of(pv, j),
                        up_left_of(pv, bytes_per_pixel as int, j),
                    ),
                ),
        decreases n - i,
    {
        let left: u8 = if i >= bytes_per_pixel { dst[i - bytes_per_pixel] } else { 0 };
        let up: u8 = prev[i];
        let up_left: u8 = if i >= bytes_per_pixel { prev[i - bytes_per_pixel] } else { 0 };
        let p = predictor(filter_type, left, up, up_left);
        assert(up as int == up_of(pv, i as int));
        assert(up_left as int == up_left_of(pv, bytes_per_pixel as int, i as int));
        let ghost before = dst@;
        dst[i] = src[i].wrapping_add(p);
        assert forall|j: int| 0 <= j <= i implies left_of(dst@, bytes_per_pixel as int, j) == left_of(before, bytes_per_pixel as int, j) by {}
        i = i + 1;
    }
    proof {
        lemma_reconstructs_unique(filter_type, bytes_per_pixel as int, src@, pv, dst@);
    }
}

/// Filtering a row and then reconstructing it against the same previous row
/// gives back the row, byte for byte, for every filter kind.
pub proof fn lemma_filter_inverse(f: u8, bpp: int, row: Seq<u8>, prev: Seq<u8>, dst: Seq<u8>)
    requires
        f <= 4,
        bpp > 0,
        reconstructs(f, bpp, filtered_row(f, bpp, row, prev), prev, dst),
    ensures
        dst == row,
{
    lemma_filter_inverse_prefix(f, bpp, row, prev, dst, row.len() as int);
    assert(dst =~= row);
}

proof fn lemma_filter_inverse_prefix(f: u8, bpp: int, row: Seq<u8>, prev: Seq<u8>, dst: Seq<u8>, n: int)
    requires
        f <= 4,
        bpp > 0,
        0 <= n <= row.len(),
        reconstructs(f, bpp, filtered_row(f, bpp, row, prev), prev, dst),
    ensures
        forall|i: int| 0 <= i < n ==> dst[i] == row[i],
    decreases n,
{
    if n > 0 {
        lemma_filter_inverse_prefix(f, bpp, row, prev, dst, n - 1);
        let i = n - 1;
        assert(left_of(dst, bpp, i) == left_of(row, bpp, i));
        let p = predict(f, left_of(row, bpp, i), up_of(prev, i), up_left_of(prev, bpp, i));
        lemma_predict_is_byte(f, left_of(row, bpp, i), up_of(prev, i), up_left_of(prev, bpp, i));
        assert(dst[i] == byte_add(filtered_row(f, bpp, row, prev)[i] as int, p));
        lemma_sub_add_cancel(row[i] as int, p);
    }
}

proof fn lemma_sub_add_cancel(x: int, p: int)
    requires
        0 <= x < 256,
        0 <= p < 256,
    ensures
        byte_add(byte_sub(x, p) as int, p) as int == x,
{
}

proof fn lemma_predict_is_byte(f: u8, left: int, up: int, up_left: int)
    requires
        0 <= left < 256,
        0 <= up < 256,
        0 <= up_left < 256,
    ensures
        0 <= predict(f, left, up, up_left) < 256,
{
}

} // verus!
