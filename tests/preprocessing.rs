use png_codec::{choose_best_filter, optimize_alpha_channel, quantize_channel, quantize_colors, score_filtered_row};
use png_codec::apply_filter;

#[test]
fn quantize_channel_clamps_to_largest_level() {
    // Four bits: 16 levels, step 15, largest level 225.
    assert_eq!(quantize_channel(255, 15, 225), 225);
    assert_eq!(quantize_channel(224, 15, 225), 210);
    assert_eq!(quantize_channel(14, 15, 225), 0);
}

#[test]
fn quantize_colors_four_bits_boundary() {
    assert_eq!(quantize_colors(&[255, 255, 255, 255], 4), vec![225, 225, 225, 255]);
    assert_eq!(quantize_colors(&[16, 31, 100, 7], 4), vec![15, 30, 90, 7]);
}

#[test]
fn quantize_colors_six_bits() {
    // 64 levels, step 3, largest level 189.
    assert_eq!(quantize_colors(&[255, 190, 100, 1], 6), vec![189, 189, 99, 1]);
}

#[test]
fn quantize_colors_drops_partial_pixel() {
    assert_eq!(quantize_colors(&[255, 255, 255, 255, 9, 9], 4).len(), 4);
}

#[test]
fn alpha_zeroing_clears_transparent_colour() {
    let px = [10u8, 20, 30, 0, 40, 50, 60, 1, 70, 80, 90, 255];
    assert_eq!(optimize_alpha_channel(&px), vec![0, 0, 0, 0, 40, 50, 60, 1, 70, 80, 90, 255]);
    assert_eq!(optimize_alpha_channel(&[]), Vec::<u8>::new());
}

#[test]
fn score_reads_bytes_as_signed() {
    assert_eq!(score_filtered_row(&[]), 0);
    assert_eq!(score_filtered_row(&[0, 1, 255, 128, 127]), 0 + 1 + 1 + 128 + 127);
}

#[test]
fn best_filter_prefers_earliest_strict_minimum() {
    // A constant row with no previous row: None scores 4 * 50, Sub scores
    // 2 * 50 and is the first strict improvement; Paeth ties with Sub.
    let row = [50u8, 50, 50, 50];
    let (f, bytes) = choose_best_filter(&row, None, 2);
    assert_eq!(f, 1);
    assert_eq!(bytes, vec![50, 50, 0, 0]);
}

#[test]
fn best_filter_uses_up_for_repeated_rows() {
    let prev = [9u8, 200, 31, 77, 5, 140];
    let (f, bytes) = choose_best_filter(&prev, Some(&prev), 3);
    assert_eq!(f, 2);
    assert_eq!(bytes, vec![0; 6]);
}

#[test]
fn best_filter_keeps_none_for_zero_row() {
    let row = [0u8; 6];
    let (f, bytes) = choose_best_filter(&row, None, 3);
    assert_eq!(f, 0);
    assert_eq!(bytes, apply_filter(0, 3, &row, None));
}
