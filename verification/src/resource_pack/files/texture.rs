//! PNG data, its optimization and the cache of optimized images.
use crate::cache::{Cache, Compression as CachedCompression, EntryView, ItemType, VERSION, index_of_key, upsert};
use crate::digest::{sha256, sha256_of};
use crate::options::{Compression, Options};
use crate::png::crc::{has_png_signature, idat_checksum_zeroed, modified_png, modify_png_crcs, zero_idat_checksum};
use crate::text::join3;
use crate::{LogLevel, LogMessage};
use vstd::prelude::*;

verus! {

/// What oxipng gives for `data` with libdeflate at `deflate_level`: the
/// optimized PNG (IDAT recompressed, every metadata chunk stripped), or the
/// text of the error it reports.
pub uninterp spec fn oxipng_result(data: Seq<u8>, deflate_level: u8) -> Result<Seq<u8>, Seq<char>>;

/// `oxipng::optimize_from_memory` with the maximum-compression preset (its
/// brute-force filter at level 12), alpha optimization, fast evaluation, no
/// interlacing, every metadata chunk stripped, error fixing on, and
/// libdeflate at `deflate_level`. Claimed: the
/// result (the PNG, or the error's text) is `oxipng_result(data,
/// deflate_level)`; which inputs fail is not stated.
#[verifier::external_body]
fn oxipng_optimize(data: &[u8], deflate_level: u8) -> (r: Result<Vec<u8>, String>)
    requires
        deflate_level <= 12,
    ensures
        match r {
            Ok(v) => oxipng_result(data@, deflate_level) == Ok::<Seq<u8>, Seq<char>>(v@),
            Err(e) => oxipng_result(data@, deflate_level) == Err::<Seq<u8>, Seq<char>>(e@),
        },
{
    let mut options = oxipng::Options::max_compression();
    options.deflater = oxipng::Deflater::Libdeflater { compression: deflate_level };
    options.strip = oxipng::StripChunks::All;
    options.fix_errors = true;
    options.fast_evaluation = true;
    options.optimize_alpha = true;
    options.interlace = Some(false);
    options.filters.shift_remove(&oxipng::FilterStrategy::Brute { num_lines: 8, level: 5 });
    options.filters.insert(oxipng::FilterStrategy::Brute { num_lines: 8, level: 12 });
    match oxipng::optimize_from_memory(data, &options) {
        Ok(v) => Ok(v),
        Err(e) => Err(e.to_string()),
    }
}

#[derive(Clone, Debug)]
pub struct Texture {
    pub bytes: Vec<u8>,
}

/// The compression and PNG corruption an image was optimized with, packed in
/// one byte (compression in the low four bits, corruption in bit 4).
#[derive(Clone, Copy, Debug, PartialEq, Eq, Structural)]
pub struct CompressionValue {
    pub compression: Compression,
    pub corrupt_png_files: bool,
}

impl CompressionValue {
    pub open spec fn packed(self) -> u8 {
        if self.corrupt_png_files {
            (self.compression.byte() | 16u8) as u8
        } else {
            self.compression.byte()
        }
    }

    pub open spec fn unpacked(value: u8) -> CompressionValue {
        CompressionValue {
            compression: Compression::from_byte(value & 15u8),
            corrupt_png_files: value & 16u8 != 0,
        }
    }

    /// A result made with `other` can stand for one made with `self`: same
    /// corruption, and at least as much compression.
    pub open spec fn compatible(self, other: CompressionValue) -> bool {
        self.corrupt_png_files == other.corrupt_png_files && self.compression.byte()
            <= other.compression.byte()
    }

    pub fn new(compression: Compression, corrupt_png_files: bool) -> (r: Self)
        ensures
            r == (CompressionValue { compression, corrupt_png_files }),
    {
        CompressionValue { compression, corrupt_png_files }
    }

    /// The packed byte.
    pub fn u8(&self) -> (r: u8)
        ensures
            r == self.packed(),
    {
        let mut value = self.compression.to_u8();
        if self.corrupt_png_files {
            value = value | 16u8;
        }
        value
    }

    /// Unpacks a byte.
    pub fn from_u8(value: u8) -> (r: Self)
        ensures
            r == Self::unpacked(value),
    {
        let corrupt_png_files = value & 16u8 != 0;
        let compression = Compression::from_u8(value & 15u8);
        Self::new(compression, corrupt_png_files)
    }

    pub fn is_compatible_with(&self, other: Self) -> (r: bool)
        ensures
            r == self.compatible(other),
    {
        self.corrupt_png_files == other.corrupt_png_files && self.compression.to_u8()
            <= other.compression.to_u8()
    }
}

/// A cached image result stands for a wanted setting only when it was made
/// with the same PNG corruption setting (a corrupted image never stands for
/// a plain one, nor the other way round) and at least the wanted compression;
/// a result made with the same setting always does. Compatibility is
/// reflexive and transitive.
pub proof fn compatibility_laws(a: CompressionValue, b: CompressionValue, c: CompressionValue)
    ensures
        a.compatible(b) ==> a.corrupt_png_files == b.corrupt_png_files,
        a.compatible(b) ==> a.compression.byte() <= b.compression.byte(),
        a.corrupt_png_files != b.corrupt_png_files ==> !a.compatible(b),
        a.corrupt_png_files == b.corrupt_png_files && b.compression == Compression::Normal ==> a.compatible(b),
        a.compatible(a),
        a.compatible(b) && b.compatible(c) ==> a.compatible(c),
{
}

/// An image is only taken from the cache when the cached result was made
/// with the wanted PNG corruption setting.
pub proof fn cached_images_keep_the_corruption_setting(entries: Seq<EntryView>, hash: Seq<u8>, wanted: CompressionValue)
    ensures
        cached_image(entries, hash, wanted) is Some ==> (index_of_key(entries, (hash, ItemType::Image)) matches Some(
            i,
        ) && CompressionValue::unpacked(entries[i].2.byte()).corrupt_png_files == wanted.corrupt_png_files),
{
}

/// Images get libdeflate's strongest level with `Normal` and a lower one with
/// `Fast`; both are levels libdeflate accepts.
pub proof fn image_levels_follow_the_compression(c: Compression)
    ensures
        deflate_level(Compression::Fast) < deflate_level(Compression::Normal),
        deflate_level(Compression::Normal) == 12,
        deflate_level(c) <= 12,
{
}

/// Packing a compression value and unpacking it gives it back.
pub proof fn compression_value_round_trip(v: CompressionValue)
    ensures
        CompressionValue::unpacked(v.packed()) == v,
{
    let b = v.compression.byte();
    assert(b == 0 || b == 1);
    if v.corrupt_png_files {
        assert((b | 16u8) & 15u8 == b && (b | 16u8) & 16u8 != 0) by (bit_vector)
            requires b == 0 || b == 1;
    } else {
        assert(b & 15u8 == b && b & 16u8 == 0) by (bit_vector)
            requires b == 0 || b == 1;
    }
}

/// The libdeflate level oxipng uses for `compression`.
pub open spec fn deflate_level(compression: Compression) -> u8 {
    match compression {
        Compression::Fast => 6,
        Compression::Normal => 12,
    }
}

/// The optimized PNG, corrupted when asked to (and when it is a PNG): the
/// zlib checksum of its image data is zeroed, then its chunk CRCs.
pub open spec fn finished_png(optimized: Seq<u8>, corrupt: bool) -> Seq<u8> {
    if corrupt && has_png_signature(idat_checksum_zeroed(optimized)) {
        modified_png(idat_checksum_zeroed(optimized))
    } else {
        optimized
    }
}

/// The cached result for an image with digest `hash`, when the cache holds
/// one made with compatible settings.
pub open spec fn cached_image(entries: Seq<EntryView>, hash: Seq<u8>, wanted: CompressionValue) -> Option<Seq<u8>> {
    match index_of_key(entries, (hash, ItemType::Image)) {
        Some(i) => if wanted.compatible(CompressionValue::unpacked(entries[i].2.byte())) {
            Some(entries[i].4)
        } else {
            None
        },
        None => None,
    }
}

pub open spec fn wanted_value(options: Options) -> CompressionValue {
    CompressionValue { compression: options.compression, corrupt_png_files: options.corrupt_png_files }
}

/// The PNG bytes after optimization: the optimized image (corrupted when
/// asked to), or the original bytes when oxipng failed.
pub fn finish_png(original: Vec<u8>, optimized: Result<Vec<u8>, String>, corrupt: bool) -> (r: Vec<u8>)
    ensures
        match optimized {
            Ok(v) => r@ == finished_png(v@, corrupt),
            Err(_) => r@ == original@,
        },
{
    match optimized {
        Ok(v) => {
            if corrupt {
                let zeroed = zero_idat_checksum(v.as_slice());
                match modify_png_crcs(zeroed.as_slice()) {
                    Ok(w) => w,
                    Err(_) => v,
                }
            } else {
                v
            }
        },
        Err(_) => original,
    }
}

/// What optimizing image `bytes` gives and does to the cache: a compatible
/// cached result is used as it is; otherwise the image as oxipng optimizes it
/// (corrupted when asked to), recorded in the cache; or, when oxipng fails,
/// the image unchanged.
pub open spec fn image_outcome(
    bytes: Seq<u8>,
    options: Options,
    before: Option<Cache>,
    after: Option<Cache>,
    out: Seq<u8>,
) -> bool {
    let result = oxipng_result(bytes, deflate_level(options.compression));
    &&& after is Some <==> before is Some
    &&& match image_cache_hit(bytes, options, before) {
        Some(data) => out == data && after == before,
        None => match result {
            Ok(v) => out == finished_png(v, options.corrupt_png_files) && match before {
                Some(c) => after->0.entries() == upsert(
                    c.entries(),
                    (
                        sha256_of(bytes),
                        ItemType::Image,
                        CachedCompression::from_byte(wanted_value(options).packed()),
                        VERSION,
                        out,
                    ),
                ),
                None => true,
            },
            Err(_) => out == bytes && after == before,
        },
    }
}

/// The cached result that optimizing `bytes` uses, if any.
pub open spec fn image_cache_hit(bytes: Seq<u8>, options: Options, cache: Option<Cache>) -> Option<Seq<u8>> {
    match cache {
        Some(c) => cached_image(c.entries(), sha256_of(bytes), wanted_value(options)),
        None => None,
    }
}

/// The message optimizing `bytes` (named `path`) logs: where the result came
/// from the cache, or why oxipng could not optimize it; nothing otherwise.
pub open spec fn image_message(bytes: Seq<u8>, options: Options, cache: Option<Cache>, path: Seq<char>) -> Option<Seq<char>> {
    match image_cache_hit(bytes, options, cache) {
        Some(_) => Some("Image '"@ + path + "' was loaded from cache."@),
        None => match oxipng_result(bytes, deflate_level(options.compression)) {
            Ok(_) => None,
            Err(e) => Some("Could not optimize image '"@ + path + "'. Skipping optimization. Error: "@ + e),
        },
    }
}

impl Texture {
    pub fn new(bytes: Vec<u8>) -> (r: Self)
        ensures
            r.bytes@ == bytes@,
    {
        Texture { bytes }
    }

    /// Optimizes the image: from the cache when it holds a compatible result,
    /// else with oxipng (recording the result in the cache), else unchanged.
    /// `path` names the image in the log message returned.
    pub fn optimize(self, options: &Options, cache: &mut Option<Cache>, path: &str) -> (r: (Vec<u8>, Option<LogMessage>))
        ensures
            image_outcome(self.bytes@, *options, *old(cache), *final(cache), r.0@),
            match image_message(self.bytes@, *options, *old(cache), path@) {
                Some(m) => r.1 matches Some(l) && l.level == LogLevel::Info && l.message@ == m,
                None => r.1 is None,
            },
    {
        let wanted = CompressionValue::new(options.compression, options.corrupt_png_files);
        let mut hash: Option<[u8; 32]> = None;
        match cache {
            Some(c) => {
                let h = sha256(self.bytes.as_slice());
                hash = Some(h);
                match c.get(&h, ItemType::Image) {
                    Some(item) => {
                        if wanted.is_compatible_with(CompressionValue::from_u8(item.compression.to_u8())) {
                            let data = item.data.clone();
                            let message = join3("Image '", path, "' was loaded from cache.");
                            proof {
                                reveal_strlit("Image '");
                                reveal_strlit("' was loaded from cache.");
                            }
                            return (data, Some(LogMessage { level: LogLevel::Info, message }));
                        }
                    },
                    None => {},
                }
            },
            None => {},
        }
        let level: u8 = match options.compression {
            Compression::Fast => 6,
            Compression::Normal => 12,
        };
        match oxipng_optimize(self.bytes.as_slice(), level) {
            Ok(v) => {
                let out = finish_png(self.bytes, Ok(v), options.corrupt_png_files);
                match cache {
                    Some(c) => {
                        match hash {
                            Some(h) => {
                                c.add_item_hash(&h, out.clone(), wanted.u8(), ItemType::Image);
                            },
                            None => {},
                        }
                    },
                    None => {},
                }
                (out, None)
            },
            Err(e) => {
                let head = join3("Could not optimize image '", path, "'. Skipping optimization. Error: ");
                let message = join3(head.as_str(), e.as_str(), "");
                proof {
                    reveal_strlit("");
                    assert(message@ =~= head@ + e@);
                }
                (self.bytes, Some(LogMessage { level: LogLevel::Info, message }))
            },
        }
    }
}

} // verus!
