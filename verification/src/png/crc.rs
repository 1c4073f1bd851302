//! Invalidating the CRCs of a PNG file, which Minecraft's reader ignores.
use vstd::prelude::*;

verus! {

/// The eight bytes every PNG file starts with.
pub open spec fn png_signature() -> Seq<u8> {
    seq![137u8, 80u8, 78u8, 71u8, 13u8, 10u8, 26u8, 10u8]
}

/// The big-endian 32-bit number stored at `s[at..at + 4]`.
pub open spec fn be_u32_at(s: Seq<u8>, at: int) -> int {
    s[at] * 16777216 + s[at + 1] * 65536 + s[at + 2] * 256 + s[at + 3]
}

/// The four chunk-type bytes at `s[at..at + 4]` spell `t`.
pub open spec fn type_is(s: Seq<u8>, at: int, t: Seq<u8>) -> bool {
    s.subrange(at, at + 4) == t
}

pub open spec fn ihdr() -> Seq<u8> {
    seq![73u8, 72u8, 68u8, 82u8]
}

pub open spec fn plte() -> Seq<u8> {
    seq![80u8, 76u8, 84u8, 69u8]
}

pub open spec fn idat() -> Seq<u8> {
    seq![73u8, 68u8, 65u8, 84u8]
}

pub open spec fn iend() -> Seq<u8> {
    seq![73u8, 69u8, 78u8, 68u8]
}

/// Chunks whose CRC is replaced by four zero bytes.
pub open spec fn crc_zeroed_type(s: Seq<u8>, at: int) -> bool {
    type_is(s, at, ihdr()) || type_is(s, at, plte()) || type_is(s, at, idat())
}

/// The rewritten bytes of the chunk stream of `input` from `offset` on.
///
/// Each complete chunk is kept, except that the CRC of `IHDR`, `PLTE` and
/// `IDAT` chunks becomes four zero bytes and the CRC of `IEND` is dropped (the
/// stream ends there, whatever follows the CRC is kept as it is). An incomplete
/// chunk, or a truncated header, is copied unchanged and ends the stream.
pub open spec fn rewrite_chunks(input: Seq<u8>, offset: int) -> Seq<u8>
    recommends
        0 <= offset,
    decreases input.len() - offset,
{
    if offset < 0 || offset >= input.len() {
        Seq::empty()
    } else if offset + 8 > input.len() {
        input.subrange(offset, input.len() as int)
    } else {
        let chunk_end = offset + 8 + be_u32_at(input, offset);
        let crc_end = chunk_end + 4;
        if crc_end > input.len() {
            input.subrange(offset, input.len() as int)
        } else if crc_zeroed_type(input, offset + 4) {
            input.subrange(offset, chunk_end) + seq![0u8, 0u8, 0u8, 0u8] + rewrite_chunks(
                input,
                crc_end,
            )
        } else if type_is(input, offset + 4, iend()) {
            input.subrange(offset, chunk_end) + input.subrange(crc_end, input.len() as int)
        } else {
            input.subrange(offset, crc_end) + rewrite_chunks(input, crc_end)
        }
    }
}

/// The chunk stream from `offset` on holds a complete `IEND` chunk, reached by
/// walking complete chunks.
pub open spec fn reaches_iend(input: Seq<u8>, offset: int) -> bool
    decreases input.len() - offset,
{
    if offset < 0 || offset + 8 > input.len() {
        false
    } else {
        let crc_end = offset + 12 + be_u32_at(input, offset);
        if crc_end > input.len() {
            false
        } else if type_is(input, offset + 4, iend()) {
            true
        } else {
            reaches_iend(input, crc_end)
        }
    }
}

/// The input is a PNG file as far as its first eight bytes go.
pub open spec fn has_png_signature(input: Seq<u8>) -> bool {
    input.len() >= 8 && input.subrange(0, 8) == png_signature()
}

/// What `modify_png_crcs` gives for `input`.
pub open spec fn modified_png(input: Seq<u8>) -> Seq<u8> {
    png_signature() + rewrite_chunks(input, 8)
}

proof fn lemma_rewrite_length(input: Seq<u8>, offset: int)
    requires
        0 <= offset <= input.len(),
    ensures
        rewrite_chunks(input, offset).len() + (if reaches_iend(input, offset) {
            4int
        } else {
            0int
        }) == input.len() - offset,
    decreases input.len() - offset,
{
    if offset < input.len() && offset + 8 <= input.len() {
        let crc_end = offset + 12 + be_u32_at(input, offset);
        if crc_end <= input.len() && !type_is(input, offset + 4, iend()) {
            lemma_rewrite_length(input, crc_end);
        }
    }
}

/// Corrupting the CRCs keeps the file's length, except that the four bytes of
/// the `IEND` CRC are removed when the file holds a complete `IEND` chunk.
pub proof fn modified_png_length(input: Seq<u8>)
    requires
        has_png_signature(input),
    ensures
        modified_png(input).len() == input.len() - (if reaches_iend(input, 8) {
            4int
        } else {
            0int
        }),
        modified_png(input).subrange(0, 8) == png_signature(),
{
    lemma_rewrite_length(input, 8);
    assert(modified_png(input).subrange(0, 8) =~= png_signature());
}

fn push_range(out: &mut Vec<u8>, src: &[u8], from: usize, to: usize)
    requires
        from <= to <= src.len(),
    ensures
        final(out)@ == old(out)@ + src@.subrange(from as int, to as int),
{
    let mut i = from;
    while i < to
        invariant
            from <= i <= to <= src.len(),
            out@ == old(out)@ + src@.subrange(from as int, i as int),
        decreases to - i,
    {
        out.push(src[i]);
        i = i + 1;
    }
}

fn type_matches(input: &[u8], at: usize, a: u8, b: u8, c: u8, d: u8) -> (r: bool)
    requires
        at + 4 <= input.len(),
    ensures
        r == type_is(input@, at as int, seq![a, b, c, d]),
{
    let r = input[at] == a && input[at + 1] == b && input[at + 2] == c && input[at + 3] == d;
    assert(r ==> input@.subrange(at as int, at + 4) =~= seq![a, b, c, d]);
    assert(input@.subrange(at as int, at + 4) == seq![a, b, c, d] ==> input@[at + 3 as int] == d
        && input@[at as int] == a && input@[at + 1] == b && input@[at + 2] == c) by {
        if input@.subrange(at as int, at + 4) == seq![a, b, c, d] {
            assert(input@.subrange(at as int, at + 4)[0] == input@[at as int]);
            assert(input@.subrange(at as int, at + 4)[1] == input@[at + 1]);
            assert(input@.subrange(at as int, at + 4)[2] == input@[at + 2]);
            assert(input@.subrange(at as int, at + 4)[3] == input@[at + 3]);
        }
    }
    r
}

/// Modifies the PNG CRCs to make them invalid and removes the `IEND` CRC.
/// Doing this breaks most PNG readers, but Minecraft does not check CRCs.
///
/// Fails, with the message "Invalid PNG signature", exactly when the input
/// does not start with the PNG signature.
pub fn modify_png_crcs(input: &[u8]) -> (r: Result<Vec<u8>, &'static str>)
    ensures
        has_png_signature(input@) <==> r is Ok,
        r matches Ok(out) ==> out@ == modified_png(input@),
        r matches Err(e) ==> e@ == "Invalid PNG signature"@,
{
    if input.len() < 8 || !(input[0] == 137 && input[1] == 80 && input[2] == 78 && input[3] == 71
        && input[4] == 13 && input[5] == 10 && input[6] == 26 && input[7] == 10) {
        proof {
            if input.len() >= 8 && input@.subrange(0, 8) == png_signature() {
                assert(input@.subrange(0, 8)[0] == input@[0]);
                assert(input@.subrange(0, 8)[1] == input@[1]);
                assert(input@.subrange(0, 8)[2] == input@[2]);
                assert(input@.subrange(0, 8)[3] == input@[3]);
                assert(input@.subrange(0, 8)[4] == input@[4]);
                assert(input@.subrange(0, 8)[5] == input@[5]);
                assert(input@.subrange(0, 8)[6] == input@[6]);
                assert(input@.subrange(0, 8)[7] == input@[7]);
            }
        }
        return Err("Invalid PNG signature");
    }
    assert(input@.subrange(0, 8) =~= png_signature());
    let mut output: Vec<u8> = Vec::new();
    push_range(&mut output, input, 0, 8);
    let mut offset: usize = 8;
    let ghost whole = modified_png(input@);

    while offset < input.len()
        invariant_except_break
            8 <= offset <= input.len(),
            output@ + rewrite_chunks(input@, offset as int) == whole,
        ensures
            output@ == whole,
        decreases input.len() - offset,
    {
        let len = input.len();
        if len - offset < 8 {
            push_range(&mut output, input, offset, len);
            break;
        }
        let length: u64 = (input[offset] as u64) * 16777216 + (input[offset + 1] as u64) * 65536
            + (input[offset + 2] as u64) * 256 + (input[offset + 3] as u64);
        if length > (len - offset - 8) as u64 || (len - offset - 8) as u64 - length < 4 {
            push_range(&mut output, input, offset, len);
            break;
        }
        let chunk_end: usize = offset + 8 + length as usize;
        let crc_end: usize = chunk_end + 4;
        assert(chunk_end == offset + 8 + be_u32_at(input@, offset as int));
        let zeroed = type_matches(input, offset + 4, 73, 72, 68, 82) || type_matches(
            input,
            offset + 4,
            80,
            76,
            84,
            69,
        ) || type_matches(input, offset + 4, 73, 68, 65, 84);
        let ghost prev = output@;
        let ghost rest = rewrite_chunks(input@, crc_end as int);
        push_range(&mut output, input, offset, chunk_end);
        if zeroed {
            output.push(0);
            output.push(0);
            output.push(0);
            output.push(0);
            assert(output@ =~= prev + input@.subrange(offset as int, chunk_end as int) + seq![
                0u8,
                0u8,
                0u8,
                0u8,
            ]);
            assert(prev + (input@.subrange(offset as int, chunk_end as int) + seq![0u8, 0u8, 0u8, 0u8]
                + rest) =~= output@ + rest);
        } else if type_matches(input, offset + 4, 73, 69, 78, 68) {
            push_range(&mut output, input, crc_end, len);
            assert(prev + (input@.subrange(offset as int, chunk_end as int) + input@.subrange(
                crc_end as int,
                len as int,
            )) =~= output@);
            break;
        } else {
            push_range(&mut output, input, chunk_end, crc_end);
            assert(input@.subrange(offset as int, crc_end as int) =~= input@.subrange(
                offset as int,
                chunk_end as int,
            ) + input@.subrange(chunk_end as int, crc_end as int));
            assert(prev + (input@.subrange(offset as int, crc_end as int) + rest) =~= output@
                + rest);
        }
        offset = crc_end;
    }
    Ok(output)
}

/// The position of the last `IDAT` chunk among the complete chunks from
/// `offset` on, up to `IEND` (`found` when there is none).
pub open spec fn last_idat(input: Seq<u8>, offset: int, found: Option<int>) -> Option<int>
    decreases input.len() - offset,
{
    if offset < 0 || offset + 8 > input.len() {
        found
    } else {
        let crc_end = offset + 12 + be_u32_at(input, offset);
        if crc_end > input.len() {
            found
        } else if type_is(input, offset + 4, iend()) {
            found
        } else if type_is(input, offset + 4, idat()) {
            last_idat(input, crc_end, Some(offset))
        } else {
            last_idat(input, crc_end, found)
        }
    }
}

/// `input` with the zlib checksum of its image data zeroed: the last four
/// data bytes of its last `IDAT` chunk (where the Adler-32 of a single-chunk
/// zlib stream lies) become zero, when that chunk holds at least four bytes.
pub open spec fn idat_checksum_zeroed(input: Seq<u8>) -> Seq<u8> {
    match last_idat(input, 8, None) {
        Some(at) => {
            let len = be_u32_at(input, at);
            let end = at + 8 + len;
            if len >= 4 {
                input.subrange(0, end - 4) + seq![0u8, 0u8, 0u8, 0u8] + input.subrange(end, input.len() as int)
            } else {
                input
            }
        },
        None => input,
    }
}

/// Zeroes the zlib checksum (Adler-32) at the end of a PNG's image data,
/// which Minecraft's reader does not check (see `idat_checksum_zeroed`).
pub fn zero_idat_checksum(input: &[u8]) -> (r: Vec<u8>)
    ensures
        r@ == idat_checksum_zeroed(input@),
{
    let mut found: Option<usize> = None;
    let mut offset: usize = 8;
    let len = input.len();
    while offset < len && len - offset >= 8
        invariant_except_break
            8 <= offset,
            len == input.len(),
            last_idat(input@, 8, None) == last_idat(input@, offset as int, match found {
                Some(a) => Some(a as int),
                None => None,
            }),
            found matches Some(a) ==> a + 12 + be_u32_at(input@, a as int) <= offset <= len,
        ensures
            last_idat(input@, 8, None) == match found {
                Some(a) => Some(a as int),
                None => None::<int>,
            },
            found matches Some(a) ==> a + 12 + be_u32_at(input@, a as int) <= len,
        decreases len - offset,
    {
        let length: u64 = (input[offset] as u64) * 16777216 + (input[offset + 1] as u64) * 65536
            + (input[offset + 2] as u64) * 256 + (input[offset + 3] as u64);
        if length > (len - offset - 8) as u64 || (len - offset - 8) as u64 - length < 4 {
            break;
        }
        let crc_end: usize = offset + 12 + length as usize;
        assert(crc_end == offset + 12 + be_u32_at(input@, offset as int));
        if type_matches(input, offset + 4, 73, 69, 78, 68) {
            break;
        }
        if type_matches(input, offset + 4, 73, 68, 65, 84) {
            found = Some(offset);
        }
        offset = crc_end;
    }
    let mut out: Vec<u8> = Vec::new();
    match found {
        Some(at) => {
            let length: u64 = (input[at] as u64) * 16777216 + (input[at + 1] as u64) * 65536
                + (input[at + 2] as u64) * 256 + (input[at + 3] as u64);
            let end: usize = at + 8 + length as usize;
            if length >= 4 {
                push_range(&mut out, input, 0, end - 4);
                out.push(0);
                out.push(0);
                out.push(0);
                out.push(0);
                push_range(&mut out, input, end, len);
                assert(out@ =~= input@.subrange(0, end - 4) + seq![0u8, 0u8, 0u8, 0u8] + input@.subrange(
                    end as int,
                    len as int,
                ));
            } else {
                push_range(&mut out, input, 0, len);
                assert(input@.subrange(0, len as int) =~= input@);
            }
        },
        None => {
            push_range(&mut out, input, 0, len);
            assert(input@.subrange(0, len as int) =~= input@);
        },
    }
    out
}

proof fn lemma_last_idat_found(input: Seq<u8>, offset: int, found: Option<int>)
    requires
        found matches Some(a) ==> 8 <= a && a + 12 + be_u32_at(input, a) <= offset && offset <= input.len(),
        8 <= offset,
    ensures
        last_idat(input, offset, found) matches Some(a) ==> 8 <= a && a + 12 + be_u32_at(input, a) <= input.len(),
    decreases input.len() - offset,
{
    if offset + 8 <= input.len() {
        let crc_end = offset + 12 + be_u32_at(input, offset);
        if crc_end <= input.len() && !type_is(input, offset + 4, iend()) {
            if type_is(input, offset + 4, idat()) {
                lemma_last_idat_found(input, crc_end, Some(offset));
            } else {
                lemma_last_idat_found(input, crc_end, found);
            }
        }
    }
}

/// Zeroing the image data checksum keeps the file's length and every byte
/// but at most four: the signature and all chunk headers stay as they are,
/// and the bytes that change become zero.
pub proof fn zeroing_the_checksum_changes_four_bytes(input: Seq<u8>)
    ensures
        idat_checksum_zeroed(input).len() == input.len(),
        input.len() >= 8 ==> idat_checksum_zeroed(input).subrange(0, 8) == input.subrange(0, 8),
        forall|i: int, j: int|
            0 <= i < input.len() && 0 <= j < input.len() && #[trigger] idat_checksum_zeroed(input)[i] != input[i]
                && #[trigger] idat_checksum_zeroed(input)[j] != input[j] ==> -4 < i - j < 4,
        forall|i: int| 0 <= i < input.len() && idat_checksum_zeroed(input)[i] != input[i] ==> #[trigger] idat_checksum_zeroed(
            input,
        )[i] == 0,
{
    lemma_last_idat_found(input, 8, None);
    let z = idat_checksum_zeroed(input);
    match last_idat(input, 8, None) {
        Some(a) => {
            let len = be_u32_at(input, a);
            let end = a + 8 + len;
            if len >= 4 {
                let at = end - 4;
                assert(at >= 8);
                assert forall|i: int| 0 <= i < input.len() && !(at <= i < at + 4) implies z[i] == input[i] by {}
                assert(z.subrange(0, 8) =~= input.subrange(0, 8));
            } else {
                assert(z == input);
            }
        },
        None => {
            assert(z == input);
        },
    }
}

} // verus!
