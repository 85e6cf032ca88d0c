//! The compression stage between serialization and the file.
//!
//! The selector is fixed at construction time; every compress or decompress
//! call is independent of every other.  Decompression of anything a
//! compress call produced gives the original bytes back, which is what the
//! replay path relies on.
use vstd::prelude::*;

use crate::error::SwapVecError;

verus! {

/// Set compression level of the compression algorithm.  This maps to
/// different values depending on the chosen algorithm.
#[derive(Clone, Debug, Copy)]
pub enum CompressionLevel {
    /// Slower than default, higher compression.  Might be useful for a big
    /// amount of data which requires heavier compression.
    Slow,
    /// A good ratio of compression ratio to cpu time.
    Default,
    /// Accept worse compression for speed.  Useful for easily compressable
    /// data with many repetitions.
    Fast,
}

/// Configure compression for the temporary file into which your data
/// might be swapped out.
#[derive(Debug, Clone, Copy)]
#[non_exhaustive]
pub enum Compression {
    /// A fixed-scheme fast block compressor without a level parameter.
    Lz4,
    /// Deflate, mostly known from gzip, with a tunable level.
    Deflate(CompressionLevel),
}

/// The numeric level handed to the Deflate-like compressor.
pub open spec fn level_value(l: CompressionLevel) -> u8 {
    match l {
        CompressionLevel::Slow => 10,
        CompressionLevel::Default => 6,
        CompressionLevel::Fast => 1,
    }
}

/// What `lz4_flex::block::compress_prepend_size` returns: a function of
/// the input bytes alone.
pub uninterp spec fn lz4_of(b: Seq<u8>) -> Seq<u8>;

/// What `miniz_oxide::deflate::compress_to_vec` returns: a function of the
/// input bytes and the level alone.
pub uninterp spec fn deflate_of(b: Seq<u8>, level: u8) -> Seq<u8>;

/// The bytes stored for `b` under selector `c`.
pub open spec fn compress_spec(c: Option<Compression>, b: Seq<u8>) -> Seq<u8> {
    match c {
        None => b,
        Some(Compression::Lz4) => lz4_of(b),
        Some(Compression::Deflate(l)) => deflate_of(b, level_value(l)),
    }
}

/// Decompression under `c` is guaranteed to invert compression of `orig`.
/// The LZ4-like scheme prepends the uncompressed length as a 32-bit
/// count, so only inputs below 2^32 bytes survive the round trip; the
/// other schemes carry no such limit.
pub open spec fn decomp_ok(c: Option<Compression>, orig: Seq<u8>) -> bool {
    match c {
        Some(Compression::Lz4) => orig.len() <= u32::MAX,
        _ => true,
    }
}

/// Relies on `lz4_flex::block::compress_prepend_size`: deterministic
/// block compression of the input, with the uncompressed size prepended.
#[verifier::external_body]
fn lz4_compress(data: &Vec<u8>) -> (r: Vec<u8>)
    ensures
        r@ == lz4_of(data@),
{
    lz4_flex::block::compress_prepend_size(data.as_slice())
}

/// Relies on `lz4_flex::block::decompress_size_prepended`: inverts
/// `compress_prepend_size` for inputs whose length fits the 32-bit size
/// prefix that `compress_prepend_size` stores, and rejects malformed
/// input.
#[verifier::external_body]
fn lz4_decompress(data: &Vec<u8>) -> (r: Result<Vec<u8>, SwapVecError>)
    ensures
        forall|orig: Seq<u8>|
            orig.len() <= u32::MAX && data@ == #[trigger] lz4_of(orig) ==> r is Ok && r->Ok_0@
                == orig,
        r is Err ==> r->Err_0 is WrongChecksum,
{
    match lz4_flex::block::decompress_size_prepended(data.as_slice()) {
        Ok(v) => Ok(v),
        Err(_) => Err(SwapVecError::WrongChecksum),
    }
}

/// Relies on `miniz_oxide::deflate::compress_to_vec`: deterministic raw
/// DEFLATE of the input at the given level.
#[verifier::external_body]
fn deflate_compress(data: &Vec<u8>, level: u8) -> (r: Vec<u8>)
    ensures
        r@ == deflate_of(data@, level),
{
    miniz_oxide::deflate::compress_to_vec(data.as_slice(), level)
}

/// Relies on `miniz_oxide::inflate::decompress_to_vec`: inverts
/// `compress_to_vec` at every level, and rejects malformed input.
#[verifier::external_body]
fn deflate_decompress(data: &Vec<u8>) -> (r: Result<Vec<u8>, SwapVecError>)
    ensures
        forall|orig: Seq<u8>, level: u8| data@ == #[trigger] deflate_of(orig, level) ==> r is Ok
            && r->Ok_0@ == orig,
        r is Err ==> r->Err_0 is WrongChecksum,
{
    match miniz_oxide::inflate::decompress_to_vec(data.as_slice()) {
        Ok(v) => Ok(v),
        Err(_) => Err(SwapVecError::WrongChecksum),
    }
}

/// The exec form of `level_value`.
fn level_of(l: CompressionLevel) -> (r: u8)
    ensures
        r == level_value(l),
{
    match l {
        CompressionLevel::Slow => 10,
        CompressionLevel::Default => 6,
        CompressionLevel::Fast => 1,
    }
}

/// Applies the configured selector to a serialized batch.
pub fn compress_with(c: &Option<Compression>, data: Vec<u8>) -> (r: Vec<u8>)
    ensures
        r@ == compress_spec(*c, data@),
{
    match c {
        None => data,
        Some(Compression::Lz4) => lz4_compress(&data),
        Some(Compression::Deflate(l)) => {
            let level = level_of(*l);
            deflate_compress(&data, level)
        },
    }
}

/// Undoes `compress_with` for the same selector.  Succeeds on every byte
/// sequence that a compress call under this selector produced from an
/// input within the scheme's limit, and hands the original bytes back.
pub fn decompress_with(c: &Option<Compression>, data: &Vec<u8>) -> (r: Result<
    Vec<u8>,
    SwapVecError,
>)
    ensures
        forall|orig: Seq<u8>|
            decomp_ok(*c, orig) && data@ == compress_spec(*c, orig) ==> r is Ok && r->Ok_0@
                == orig,
        r is Err ==> r->Err_0 is WrongChecksum,
{
    match c {
        None => Ok(data.clone()),
        Some(Compression::Lz4) => lz4_decompress(data),
        Some(Compression::Deflate(_)) => deflate_decompress(data),
    }
}

} // verus!
