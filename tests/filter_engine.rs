use png_codec::{apply_filter, paeth_predictor, unfilter_row};

#[test]
fn paeth_prefers_left_on_ties() {
    // p = 10 + 10 - 10 = 10: all three are at distance 0.
    assert_eq!(paeth_predictor(10, 10, 10), 10);
    // p = 10 + 20 - 5 = 25: distances 15, 5, 20.
    assert_eq!(paeth_predictor(10, 20, 5), 20);
    // p = 50 + 60 - 100 = 10: distances 40, 50, 90.
    assert_eq!(paeth_predictor(50, 60, 100), 50);
    // p = 100 + 20 - 90 = 30: distances 70, 10, 60.
    assert_eq!(paeth_predictor(100, 20, 90), 20);
    // p = 20 + 30 - 25 = 25: distances 5, 5, 0 -> c.
    assert_eq!(paeth_predictor(20, 30, 25), 25);
}

#[test]
fn paeth_is_tie_broken_minimizer_everywhere() {
    for a in (0u16..256).step_by(15) {
        for b in (0u16..256).step_by(17) {
            for c in (0u16..256).step_by(13) {
                let (a, b, c) = (a as u8, b as u8, c as u8);
                let r = paeth_predictor(a, b, c);
                let p = a as i32 + b as i32 - c as i32;
                let d = |x: u8| (p - x as i32).abs();
                let least = d(a).min(d(b)).min(d(c));
                assert!(r == a || r == b || r == c);
                assert_eq!(d(r), least);
                if d(a) == least {
                    assert_eq!(r, a);
                } else if d(b) == least {
                    assert_eq!(r, b);
                }
            }
        }
    }
}

#[test]
fn filters_have_exact_values() {
    let row = [10u8, 20, 30, 40, 50, 60];
    let prev = [5u8, 5, 5, 100, 100, 100];
    assert_eq!(apply_filter(0, 3, &row, Some(&prev)), row.to_vec());
    assert_eq!(apply_filter(1, 3, &row, Some(&prev)), vec![10, 20, 30, 30, 30, 30]);
    assert_eq!(apply_filter(2, 3, &row, Some(&prev)), vec![5, 15, 25, 196, 206, 216]);
    // Average: floor((left + up) / 2); first pixel has left 0.
    assert_eq!(apply_filter(3, 3, &row, Some(&prev)), vec![8, 18, 28, 241, 246, 251]);
    // Without a previous row, Up leaves the row as it is.
    assert_eq!(apply_filter(2, 3, &row, None), row.to_vec());
}

#[test]
fn paeth_filter_first_row_is_sub() {
    let row = [1u8, 2, 3, 4, 5, 6, 7, 8];
    assert_eq!(apply_filter(4, 4, &row, None), apply_filter(1, 4, &row, None));
}

#[test]
fn reconstruct_inverts_every_filter_kind() {
    let rows: [[u8; 8]; 3] = [
        [0, 255, 128, 7, 200, 3, 99, 250],
        [255, 255, 0, 0, 17, 34, 51, 68],
        [9, 8, 7, 6, 5, 4, 3, 2],
    ];
    for f in 0u8..=4 {
        for bpp in [3usize, 4] {
            for (k, row) in rows.iter().enumerate() {
                let prev: Option<&[u8]> = if k == 0 { None } else { Some(&rows[k - 1]) };
                let filtered = apply_filter(f, bpp, row, prev);
                let mut dst = vec![0u8; row.len()];
                unfilter_row(f, bpp, &filtered, prev.map(|p| p.to_vec()), &mut dst);
                assert_eq!(dst, row.to_vec(), "kind {} bpp {} row {}", f, bpp, k);
            }
        }
    }
}

#[test]
fn unfilter_sub_and_average_exact() {
    let src = [1u8, 2, 3, 1, 1, 1];
    let mut dst = vec![0u8; 6];
    unfilter_row(1, 3, &src, None, &mut dst);
    assert_eq!(dst, vec![1, 2, 3, 2, 3, 4]);
    let prev = vec![10u8, 10, 10, 10, 10, 10];
    unfilter_row(3, 3, &src, Some(prev), &mut dst);
    // First pixel: src + floor(10 / 2); then src + floor((left + 10) / 2).
    assert_eq!(dst, vec![6, 7, 8, 9, 9, 10]);
}
