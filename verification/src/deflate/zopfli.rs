//! DEFLATE and zlib streams made by Zopfli.
use crate::deflate::{zlib_stream, zlib_wrap, DeflateError};
use std::io::Write;
use vstd::prelude::*;

verus! {

/// How hard Zopfli works (the fields of `zopfli::Options`).
#[derive(Debug, Clone, Copy, PartialEq, Eq, Structural)]
pub struct ZopfliConfig {
    pub iteration_count: u64,
    pub iterations_without_improvement: u64,
    pub maximum_block_splits: u16,
}

impl ZopfliConfig {
    /// Both iteration counts are positive, as Zopfli requires.
    pub open spec fn valid(&self) -> bool {
        self.iteration_count > 0 && self.iterations_without_improvement > 0
    }
}

/// The DEFLATE stream Zopfli produces (dynamic blocks) for `data` with the
/// given options.
pub uninterp spec fn zopfli_stream(
    data: Seq<u8>,
    iteration_count: u64,
    iterations_without_improvement: u64,
    maximum_block_splits: u16,
) -> Seq<u8>;

pub open spec fn zopfli_stream_for(data: Seq<u8>, options: ZopfliConfig) -> Seq<u8> {
    zopfli_stream(
        data,
        options.iteration_count,
        options.iterations_without_improvement,
        options.maximum_block_splits,
    )
}

/// `zopfli::DeflateEncoder` with dynamic blocks, fed `data` and finished.
/// Claimed: the result is `Ok` of `zopfli_stream` of the data and options.
/// The encoder's errors all come from writing to its sink, which here is a
/// `Vec<u8>` that grows as needed, so the call succeeds.
#[verifier::external_body]
fn zopfli_compress(data: &[u8], options: ZopfliConfig) -> (r: Result<Vec<u8>, DeflateError>)
    requires
        options.valid(),
    ensures
        r is Ok,
        r matches Ok(v) ==> v@ == zopfli_stream(
            data@,
            options.iteration_count,
            options.iterations_without_improvement,
            options.maximum_block_splits,
        ),
{
    let options = ::zopfli::Options {
        iteration_count: std::num::NonZeroU64::new(options.iteration_count).unwrap(),
        iterations_without_improvement: std::num::NonZeroU64::new(options.iterations_without_improvement).unwrap(),
        maximum_block_splits: options.maximum_block_splits,
    };
    let mut encoder = ::zopfli::DeflateEncoder::new(options, ::zopfli::BlockType::Dynamic, Vec::new());
    if encoder.write_all(data).is_err() {
        return Err(DeflateError::CompressionFailed);
    }
    match encoder.finish() {
        Ok(out) => Ok(out),
        Err(_) => Err(DeflateError::CompressionFailed),
    }
}

/// `input` compressed by Zopfli with `options`, as a zlib stream; the
/// checksum is zeroed when `checksum` is false.
pub fn zopfli_zlib(input: &[u8], options: ZopfliConfig, checksum: bool) -> (r: Result<Vec<u8>, DeflateError>)
    requires
        options.valid(),
    ensures
        r is Ok,
        r matches Ok(v) ==> v@ == zlib_stream(input@, zopfli_stream_for(input@, options), checksum),
{
    let compressed = zopfli_deflate(input, options)?;
    Ok(zlib_wrap(input, compressed, checksum))
}

/// `input` compressed by Zopfli with `options`, as a raw DEFLATE stream.
pub fn zopfli_deflate(input: &[u8], options: ZopfliConfig) -> (r: Result<Vec<u8>, DeflateError>)
    requires
        options.valid(),
    ensures
        r is Ok,
        r matches Ok(v) ==> v@ == zopfli_stream_for(input@, options),
{
    zopfli_compress(input, options)
}

} // verus!
