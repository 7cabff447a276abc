//! The outside crates the codec relies on: the chunk checksum, the zlib and
//! zopfli compressors, and the AES-256-GCM cipher. Each item here is trusted:
//! its contract states what the crate's documentation and source show.
use vstd::prelude::*;

use aes_gcm::aead::{Aead, AeadCore, KeyInit, OsRng};
use aes_gcm::{Aes256Gcm, Nonce};
use std::io::{Read, Write};

verus! {

/// The CRC-32 (IEEE) of a byte sequence.
pub uninterp spec fn crc32_of(data: Seq<u8>) -> u32;

/// The bytes that a zlib stream inflates to, or `None` where it is not a
/// valid stream.
pub uninterp spec fn zlib_inflated(data: Seq<u8>) -> Option<Seq<u8>>;

/// The zlib stream that flate2 writes for `data` at compression level `level`.
pub uninterp spec fn zlib_deflated(data: Seq<u8>, level: u32) -> Seq<u8>;

/// The AES-256-GCM ciphertext, tag appended, of `plain` under `key` and `nonce`
/// with empty associated data.
pub uninterp spec fn aes256gcm_sealed(key: Seq<u8>, nonce: Seq<u8>, plain: Seq<u8>) -> Seq<u8>;

/// The plaintext that AES-256-GCM authenticates and recovers from `sealed`
/// under `key` and `nonce` with empty associated data, or `None` where
/// authentication fails.
pub uninterp spec fn aes256gcm_opened(key: Seq<u8>, nonce: Seq<u8>, sealed: Seq<u8>) -> Option<Seq<u8>>;

/// An optional byte vector as an optional sequence.
pub open spec fn opt_bytes(o: Option<Vec<u8>>) -> Option<Seq<u8>> {
    match o {
        Some(v) => Some(v@),
        None => None,
    }
}

/// Relies on `crc32fast::hash`: the CRC-32 of the bytes, a function of them alone.
#[verifier::external_body]
pub(crate) fn crc32(data: &[u8]) -> (r: u32)
    ensures
        r == crc32_of(data@),
{
    crc32fast::hash(data)
}

/// Relies on `flate2::read::ZlibDecoder` read to the end: the inflated bytes,
/// or `None` where the stream is invalid.
#[verifier::external_body]
pub(crate) fn zlib_inflate(data: &[u8]) -> (r: Option<Vec<u8>>)
    ensures
        opt_bytes(r) == zlib_inflated(data@),
{
    let mut decoder = flate2::read::ZlibDecoder::new(data);
    let mut out: Vec<u8> = Vec::new();
    match decoder.read_to_end(&mut out) {
        Ok(_) => Some(out),
        Err(_) => None,
    }
}

/// Relies on `flate2::write::ZlibEncoder` at `Compression::new(level)`: a zlib
/// stream that inflates back to `data`. Writing into a `Vec` cannot fail, and
/// deflating raises no compressor error, so the encoder always succeeds.
#[verifier::external_body]
pub(crate) fn zlib_deflate(data: &[u8], level: u32) -> (r: Vec<u8>)
    requires
        level <= 9,
    ensures
        r@ == zlib_deflated(data@, level),
        zlib_inflated(r@) == Some(data@),
{
    let mut encoder = flate2::write::ZlibEncoder::new(Vec::new(), flate2::Compression::new(level));
    encoder.write_all(data).expect("deflating into a Vec does not fail");
    encoder.finish().expect("deflating into a Vec does not fail")
}

/// Relies on `zopfli::compress` in zlib format with the given options: a zlib
/// stream that inflates back to `data`. It fails only on I/O errors of its
/// reader and writer, and a slice and a `Vec` raise none. Its output bytes
/// may differ between machines (its cost model uses floating point), so only
/// the round trip is stated.
#[verifier::external_body]
pub(crate) fn zopfli_deflate(data: &[u8], iterations: u64, stall: u64, max_blocks: u16) -> (r: Vec<u8>)
    requires
        iterations > 0,
        stall > 0,
    ensures
        zlib_inflated(r@) == Some(data@),
{
    let options = zopfli::Options {
        iteration_count: std::num::NonZeroU64::new(iterations).unwrap(),
        iterations_without_improvement: std::num::NonZeroU64::new(stall).unwrap(),
        maximum_block_splits: max_blocks,
    };
    let mut out: Vec<u8> = Vec::new();
    zopfli::compress(options, zopfli::Format::Zlib, data, &mut out).expect("zopfli into a Vec does not fail");
    out
}

/// Relies on `Aead::encrypt` of `aes_gcm::Aes256Gcm` with empty associated
/// data: the ciphertext with its 16-byte tag appended, which decrypts back to
/// `plain` under the same key and nonce; it refuses plaintexts over 2^36 bytes.
#[verifier::external_body]
pub(crate) fn aes256gcm_seal(key: &[u8; 32], nonce: &[u8], plain: &[u8]) -> (r: Option<Vec<u8>>)
    requires
        nonce@.len() == 12,
    ensures
        r is Some <==> plain@.len() <= 0x10_0000_0000,
        r matches Some(c) ==> c@ == aes256gcm_sealed(key@, nonce@, plain@) && c@.len() == plain@.len() + 16
            && aes256gcm_opened(key@, nonce@, c@) == Some(plain@),
{
    let cipher = Aes256Gcm::new(key.into());
    cipher.encrypt(Nonce::from_slice(nonce), plain).ok()
}

/// Relies on `Aead::decrypt` of `aes_gcm::Aes256Gcm` with empty associated
/// data: the authenticated plaintext, or `None`.
#[verifier::external_body]
pub(crate) fn aes256gcm_open(key: &[u8; 32], nonce: &[u8], sealed: &[u8]) -> (r: Option<Vec<u8>>)
    requires
        nonce@.len() == 12,
    ensures
        opt_bytes(r) == aes256gcm_opened(key@, nonce@, sealed@),
{
    let cipher = Aes256Gcm::new(key.into());
    cipher.decrypt(Nonce::from_slice(nonce), sealed).ok()
}

/// Relies on `AeadCore::generate_nonce` over `OsRng`: twelve fresh random bytes.
#[verifier::external_body]
pub(crate) fn random_nonce() -> (r: Vec<u8>)
    ensures
        r@.len() == 12,
{
    Aes256Gcm::generate_nonce(&mut OsRng).to_vec()
}

} // verus!
