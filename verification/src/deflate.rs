//! Raw DEFLATE streams and their zlib framing (RFC 1950).
use vstd::prelude::*;

pub mod dynamic;
pub mod libdeflater;
pub mod zopfli;

verus! {

/// A compressor reported a failure, or there was nothing to compress.
#[derive(Debug, Clone, Copy, PartialEq, Eq, Structural)]
pub enum DeflateError {
    CompressionFailed,
}

pub const ADLER_MOD: u32 = 65521;

/// The running sums `(a, b)` of Adler-32 over `data` (RFC 1950, section 9).
pub open spec fn adler_sums(data: Seq<u8>) -> (int, int)
    decreases data.len(),
{
    if data.len() == 0 {
        (1, 0)
    } else {
        let (a, b) = adler_sums(data.drop_last());
        let a2 = (a + data.last()) % 65521;
        (a2, (b + a2) % 65521)
    }
}

/// The Adler-32 checksum of `data`.
pub open spec fn adler32_of(data: Seq<u8>) -> int {
    adler_sums(data).1 * 65536 + adler_sums(data).0
}

/// The Adler-32 checksum of `data` (RFC 1950, section 9).
pub fn adler32(data: &[u8]) -> (r: u32)
    ensures
        r == adler32_of(data@),
{
    let mut a: u32 = 1;
    let mut b: u32 = 0;
    let mut i: usize = 0;
    while i < data.len()
        invariant
            i <= data.len(),
            a < 65521,
            b < 65521,
            (a as int, b as int) == adler_sums(data@.take(i as int)),
        decreases data.len() - i,
    {
        assert(data@.take(i + 1).drop_last() =~= data@.take(i as int));
        assert(data@.take(i + 1).last() == data@[i as int]);
        a = (a + data[i] as u32) % 65521;
        b = (b + a) % 65521;
        i = i + 1;
    }
    assert(data@.take(data.len() as int) =~= data@);
    b * 65536 + a
}

/// The four big-endian bytes of `x`.
pub open spec fn be_bytes(x: int) -> Seq<u8> {
    seq![
        ((x / 16777216) % 256) as u8,
        ((x / 65536) % 256) as u8,
        ((x / 256) % 256) as u8,
        (x % 256) as u8,
    ]
}

/// The zlib stream around the DEFLATE data `compressed` of `input`: the fixed
/// header `78 9C`, the data, and the Adler-32 of the input (big-endian), or
/// four zero bytes when no checksum is wanted.
pub open spec fn zlib_stream(input: Seq<u8>, compressed: Seq<u8>, checksum: bool) -> Seq<u8> {
    seq![0x78u8, 0x9Cu8] + compressed + if checksum {
        be_bytes(adler32_of(input))
    } else {
        seq![0u8, 0u8, 0u8, 0u8]
    }
}

pub(crate) fn zlib_wrap(input: &[u8], compressed: Vec<u8>, checksum: bool) -> (r: Vec<u8>)
    ensures
        r@ == zlib_stream(input@, compressed@, checksum),
{
    let trailer: Vec<u8> = if checksum {
        let sum = adler32(input);
        vec![
            ((sum / 16777216) % 256) as u8,
            ((sum / 65536) % 256) as u8,
            ((sum / 256) % 256) as u8,
            (sum % 256) as u8,
        ]
    } else {
        vec![0u8, 0u8, 0u8, 0u8]
    };
    let mut out: Vec<u8> = vec![0x78u8, 0x9Cu8];
    let mut i: usize = 0;
    while i < compressed.len()
        invariant
            i <= compressed.len(),
            out@ == seq![0x78u8, 0x9Cu8] + compressed@.subrange(0, i as int),
        decreases compressed.len() - i,
    {
        out.push(compressed[i]);
        i = i + 1;
    }
    assert(compressed@.subrange(0, compressed.len() as int) =~= compressed@);
    let ghost body = out@;
    let mut j: usize = 0;
    while j < 4
        invariant
            j <= 4,
            trailer@.len() == 4,
            out@ == body + trailer@.subrange(0, j as int),
        decreases 4 - j,
    {
        out.push(trailer[j]);
        j = j + 1;
    }
    assert(trailer@.subrange(0, 4) =~= trailer@);
    proof {
        if checksum {
            assert(trailer@ =~= be_bytes(adler32_of(input@)));
        } else {
            assert(trailer@ =~= seq![0u8, 0u8, 0u8, 0u8]);
        }
    }
    out
}

} // verus!
