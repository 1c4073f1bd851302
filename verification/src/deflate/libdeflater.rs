//! DEFLATE and zlib streams made by libdeflate.
use crate::deflate::{zlib_stream, zlib_wrap, DeflateError};
use vstd::prelude::*;

verus! {

/// The DEFLATE stream libdeflate produces for `data` at compression `level`.
pub uninterp spec fn libdeflate_stream(data: Seq<u8>, level: u8) -> Seq<u8>;

/// `libdeflater::Compressor::deflate_compress` at `level` into a buffer of
/// `deflate_compress_bound` bytes. Claimed: the result is
/// `Ok(libdeflate_stream(data, level))`. libdeflate reports failure only when
/// the output does not fit the buffer, and `deflate_compress_bound` is
/// documented as a worst-case bound for any input, so the call succeeds.
#[verifier::external_body]
fn libdeflate_compress(data: &[u8], level: u8) -> (r: Result<Vec<u8>, DeflateError>)
    requires
        level <= 12,
    ensures
        r is Ok,
        r matches Ok(v) ==> v@ == libdeflate_stream(data@, level),
{
    let mut compressor = ::libdeflater::Compressor::new(::libdeflater::CompressionLvl::new(level as i32).unwrap());
    let mut out = vec![0u8; compressor.deflate_compress_bound(data.len())];
    match compressor.deflate_compress(data, &mut out) {
        Ok(size) => {
            out.truncate(size);
            Ok(out)
        },
        Err(_) => Err(DeflateError::CompressionFailed),
    }
}

/// `input` compressed by libdeflate at `level`, as a zlib stream; the
/// checksum is zeroed when `checksum` is false.
pub fn libdeflater_zlib(input: &[u8], level: u8, checksum: bool) -> (r: Result<Vec<u8>, DeflateError>)
    requires
        level <= 12,
    ensures
        r is Ok,
        r matches Ok(v) ==> v@ == zlib_stream(input@, libdeflate_stream(input@, level), checksum),
{
    let compressed = libdeflater_deflate(input, level)?;
    Ok(zlib_wrap(input, compressed, checksum))
}

/// `input` compressed by libdeflate at `level`, as a raw DEFLATE stream.
pub fn libdeflater_deflate(input: &[u8], level: u8) -> (r: Result<Vec<u8>, DeflateError>)
    requires
        level <= 12,
    ensures
        r is Ok,
        r matches Ok(v) ==> v@ == libdeflate_stream(input@, level),
{
    libdeflate_compress(input, level)
}

} // verus!
