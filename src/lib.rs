//! A codec for a chunked raster image container of the PNG family:
//! chunk framing, scanline filtering, encode-side optimisation and an
//! optional authenticated-encryption layer over the image data.
//!
//! Every module is verified; `backend` holds the trusted wrappers around the
//! outside crates (CRC-32, zlib, zopfli, AES-256-GCM).
pub mod backend;
pub mod chunk;
pub mod filter;
pub mod optimization;
pub mod read;
pub mod round_trip;
pub mod types;
pub mod write;

pub use chunk::{parse_image_type, write_chunk};
pub use filter::{apply_filter, paeth_predictor, unfilter_row};
pub use optimization::{
    choose_best_filter, optimize_alpha_channel, quantize_channel, quantize_colors, score_filtered_row,
};
pub use types::{CompressionLevel, DecodedPng, ImageType, Pixel, PngError, PngInfo};
