//! A ZIP writer that stores identical contents once and leaves out every field
//! Minecraft does not read.
//!
//! Each distinct content is written once as a local file header whose fields
//! are all zero but the signature, followed by the data (stored or DEFLATE).
//! Every file gets a central directory entry with its real name, compression
//! method, compressed size and the offset of the shared local header.
use crate::cache::{Cache, Compression as CachedCompression, EntryView, ItemType, VERSION, index_of_key, upsert};
use crate::deflate::DeflateError;
use crate::deflate::dynamic::{Level, dynamic_deflate, dynamic_stream};
use crate::deflate::libdeflater::{libdeflate_stream, libdeflater_deflate};
use crate::digest::{sha256, sha256_of};
use crate::options::{Compression, Options};
use crate::zip_reader::file_views;
use vstd::bytes::{spec_u16_to_le_bytes, spec_u32_to_le_bytes, u16_to_le_bytes, u32_to_le_bytes};
use vstd::prelude::*;
use vstd::string::StringSliceAdditionalSpecFns;
use vstd::utf8::encode_utf8;

verus! {

/// Where a content was written and how.
#[derive(Clone, Copy, Debug, PartialEq, Eq, Structural)]
pub struct CachedFileData {
    pub header_offset: u32,
    pub compression_method: u16,
    pub compressed_size: u32,
}

/// A file of the central directory.
#[derive(Clone, Debug)]
pub struct CentralDirectoryEntry {
    pub filename: String,
    pub compression_method: u16,
    pub compressed_size: u32,
    pub header_offset: u32,
}

pub open spec fn zeros(n: nat) -> Seq<u8> {
    Seq::new(n, |i: int| 0u8)
}

/// A local file header (signature, then 26 zero bytes) and the data.
pub open spec fn local_record(payload: Seq<u8>) -> Seq<u8> {
    spec_u32_to_le_bytes(0x04034b50) + zeros(26) + payload
}

/// The central directory record of a file named by the UTF-8 bytes `name`.
pub open spec fn central_record(name: Seq<u8>, method: u16, size: u32, offset: u32) -> Seq<u8> {
    spec_u32_to_le_bytes(0x02014b50) + zeros(6) + spec_u16_to_le_bytes(method) + zeros(8)
        + spec_u32_to_le_bytes(size) + zeros(4) + spec_u16_to_le_bytes(name.len() as u16) + zeros(
        12,
    ) + spec_u32_to_le_bytes(offset) + name
}

pub open spec fn central_records(entries: Seq<(Seq<u8>, u16, u32, u32)>) -> Seq<u8>
    decreases entries.len(),
{
    if entries.len() == 0 {
        Seq::empty()
    } else {
        central_records(entries.drop_last()) + central_record(
            entries.last().0,
            entries.last().1,
            entries.last().2,
            entries.last().3,
        )
    }
}

/// The end of central directory record (the disk number is `0xFFFF` and the
/// record counts zero, which Minecraft ignores).
pub open spec fn end_record(cd_size: u32, cd_start: u32) -> Seq<u8> {
    spec_u32_to_le_bytes(0x06054b50) + spec_u16_to_le_bytes(0xFFFF) + zeros(6)
        + spec_u32_to_le_bytes(cd_size) + spec_u32_to_le_bytes(cd_start) + zeros(2)
}

/// The data written for a file whose compression gave `compressed`: the
/// compressed data, or the file itself when compression gave nothing.
pub open spec fn payload(data: Seq<u8>, compressed: Seq<u8>) -> Seq<u8> {
    if compressed.len() == 0 {
        data
    } else {
        compressed
    }
}

/// The compression of `data` with fresh compressors: DEFLATE data, or nothing
/// when the data is better stored (empty data, compression that does not pay).
pub open spec fn fresh_compression(data: Seq<u8>, compression: Compression) -> Seq<u8> {
    let out = match compression {
        Compression::Fast => libdeflate_stream(data, 12),
        Compression::Normal => dynamic_stream(data, Level::Normal, false),
    };
    if data.len() == 0 || out.len() > data.len() {
        Seq::empty()
    } else {
        out
    }
}

/// The compression byte recorded in the cache for a fresh result.
pub open spec fn recorded_compression(compression: Compression) -> u8 {
    match compression {
        Compression::Fast => 0,
        Compression::Normal => 2,
    }
}

/// The cached compression of a content with digest `hash`, when it was made
/// with at least the wanted compression.
pub open spec fn cached_compression(entries: Seq<EntryView>, hash: Seq<u8>, compression: Compression) -> Option<Seq<u8>> {
    match index_of_key(entries, (hash, ItemType::Generic)) {
        Some(i) => if entries[i].2.byte() >= compression.byte() {
            Some(entries[i].4)
        } else {
            None
        },
        None => None,
    }
}

/// The compression a new content gets: the cached result when the cache
/// holds a good enough one, else a fresh compression.
pub open spec fn chosen_compression(cache: Option<Cache>, data: Seq<u8>, compression: Compression) -> Seq<u8> {
    match cache {
        Some(c) => match cached_compression(c.entries(), sha256_of(data), compression) {
            Some(v) => v,
            None => fresh_compression(data, compression),
        },
        None => fresh_compression(data, compression),
    }
}

/// The entries a cache holds, if there is a cache.
pub open spec fn cache_view(c: Option<Cache>) -> Option<Seq<EntryView>> {
    match c {
        Some(c) => Some(c.entries()),
        None => None,
    }
}

/// The compression a new content gets from a cache holding `cache`.
pub open spec fn chosen_from(cache: Option<Seq<EntryView>>, data: Seq<u8>, compression: Compression) -> Seq<u8> {
    match cache {
        Some(e) => match cached_compression(e, sha256_of(data), compression) {
            Some(v) => v,
            None => fresh_compression(data, compression),
        },
        None => fresh_compression(data, compression),
    }
}

/// The cache after a new content is compressed: unchanged when it held a
/// good enough result, else holding the fresh one.
pub open spec fn cache_after(cache: Option<Seq<EntryView>>, data: Seq<u8>, compression: Compression) -> Option<
    Seq<EntryView>,
> {
    match cache {
        Some(e) => Some(
            match cached_compression(e, sha256_of(data), compression) {
                Some(_) => e,
                None => upsert(
                    e,
                    (
                        sha256_of(data),
                        ItemType::Generic,
                        CachedCompression::from_byte(recorded_compression(compression)),
                        VERSION,
                        fresh_compression(data, compression),
                    ),
                ),
            },
        ),
        None => None,
    }
}

/// The state of a writer (bytes written, contents, central directory
/// entries) together with its cache.
pub type WriterState = (Seq<u8>, Seq<(Seq<u8>, CachedFileData)>, Seq<(Seq<u8>, u16, u32, u32)>, Option<Seq<EntryView>>);

/// The state after adding a file named by the UTF-8 bytes `name` with
/// content `data`: a content written before is pointed at again; a new one
/// is compressed (from the cache or fresh), written after a local header
/// and recorded.
pub open spec fn add_to(s: WriterState, name: Seq<u8>, data: Seq<u8>, compression: Compression) -> WriterState {
    let h = sha256_of(data);
    match content_index(s.1, h) {
        Some(i) => {
            let d = s.1[i].1;
            (s.0, s.1, s.2.push((name, d.compression_method, d.compressed_size, d.header_offset)), s.3)
        },
        None => {
            let compressed = chosen_from(s.3, data, compression);
            let d = CachedFileData {
                header_offset: s.0.len() as u32,
                compression_method: method_for(compressed),
                compressed_size: payload(data, compressed).len() as u32,
            };
            (
                s.0 + local_record(payload(data, compressed)),
                s.1.push((h, d)),
                s.2.push((name, d.compression_method, d.compressed_size, d.header_offset)),
                cache_after(s.3, data, compression),
            )
        },
    }
}

/// `written` holds, at `d.header_offset`, a local file header followed by
/// `d.compressed_size` bytes.
pub open spec fn record_at(written: Seq<u8>, d: CachedFileData) -> bool {
    &&& d.header_offset + 30 + d.compressed_size <= written.len()
    &&& written.subrange(d.header_offset as int, d.header_offset + 4) == spec_u32_to_le_bytes(0x04034b50)
    &&& written.subrange(d.header_offset + 4, d.header_offset + 30) == zeros(26)
}

/// Where a central directory entry says its data is.
pub open spec fn entry_data(e: (Seq<u8>, u16, u32, u32)) -> CachedFileData {
    CachedFileData { header_offset: e.3, compression_method: e.1, compressed_size: e.2 }
}

/// The entry points at one of the contents written.
pub open spec fn points_at_content(contents: Seq<(Seq<u8>, CachedFileData)>, e: (Seq<u8>, u16, u32, u32)) -> bool {
    exists|i: int| 0 <= i < contents.len() && (#[trigger] contents[i]).1 == entry_data(e)
}

proof fn lemma_record_kept(w: Seq<u8>, x: Seq<u8>, d: CachedFileData)
    requires
        record_at(w, d),
    ensures
        record_at(w + x, d),
{
    assert((w + x).subrange(d.header_offset as int, d.header_offset + 4) =~= w.subrange(
        d.header_offset as int,
        d.header_offset + 4,
    ));
    assert((w + x).subrange(d.header_offset + 4, d.header_offset + 30) =~= w.subrange(
        d.header_offset + 4,
        d.header_offset + 30,
    ));
}

proof fn lemma_new_record(w: Seq<u8>, p: Seq<u8>, d: CachedFileData)
    requires
        d.header_offset == w.len(),
        d.compressed_size == p.len(),
    ensures
        record_at(w + local_record(p), d),
{
    vstd::bytes::lemma_auto_spec_u32_to_from_le_bytes();
    let all = w + local_record(p);
    assert(all.subrange(w.len() as int, w.len() + 4int) =~= spec_u32_to_le_bytes(0x04034b50));
    assert(all.subrange(w.len() + 4int, w.len() + 30int) =~= zeros(26));
}

/// The ZIP archive being written, in memory.
pub struct OptimizedZipWriter {
    content_cache: Vec<([u8; 32], CachedFileData)>,
    output: Vec<u8>,
    cd_entries: Vec<CentralDirectoryEntry>,
}

pub open spec fn cd_view(e: CentralDirectoryEntry) -> (Seq<u8>, u16, u32, u32) {
    (encode_utf8(e.filename@), e.compression_method, e.compressed_size, e.header_offset)
}

pub open spec fn method_for(compressed: Seq<u8>) -> u16 {
    if compressed.len() == 0 {
        0
    } else {
        8
    }
}

fn push_bytes(out: &mut Vec<u8>, src: &[u8])
    ensures
        final(out)@ == old(out)@ + src@,
{
    let mut i: usize = 0;
    while i < src.len()
        invariant
            i <= src.len(),
            out@ == old(out)@ + src@.subrange(0, i as int),
        decreases src.len() - i,
    {
        out.push(src[i]);
        i = i + 1;
    }
    assert(src@.subrange(0, src.len() as int) =~= src@);
}

fn push_zeros(out: &mut Vec<u8>, n: usize)
    ensures
        final(out)@ == old(out)@ + zeros(n as nat),
{
    let mut i: usize = 0;
    while i < n
        invariant
            i <= n,
            out@ == old(out)@ + zeros(i as nat),
        decreases n - i,
    {
        out.push(0u8);
        i = i + 1;
        assert(out@ =~= old(out)@ + zeros(i as nat));
    }
}

fn same_hash(a: &[u8; 32], b: &[u8; 32]) -> (r: bool)
    ensures
        r == (a@ == b@),
{
    let mut i: usize = 0;
    while i < 32
        invariant
            i <= 32,
            forall|j: int| 0 <= j < i ==> a@[j] == b@[j],
        decreases 32 - i,
    {
        if a[i] != b[i] {
            return false;
        }
        i = i + 1;
    }
    assert(a@ =~= b@);
    true
}

/// The first content with digest `h`.
pub open spec fn content_index(contents: Seq<(Seq<u8>, CachedFileData)>, h: Seq<u8>) -> Option<int>
    decreases contents.len(),
{
    if contents.len() == 0 {
        None
    } else {
        match content_index(contents.drop_last(), h) {
            Some(i) => Some(i),
            None => if contents.last().0 == h {
                Some(contents.len() - 1)
            } else {
                None
            },
        }
    }
}

proof fn lemma_content_index(contents: Seq<(Seq<u8>, CachedFileData)>, h: Seq<u8>)
    ensures
        match content_index(contents, h) {
            Some(i) => 0 <= i < contents.len() && contents[i].0 == h && forall|j: int|
                0 <= j < i ==> contents[j].0 != h,
            None => forall|j: int| 0 <= j < contents.len() ==> contents[j].0 != h,
        },
    decreases contents.len(),
{
    if contents.len() > 0 {
        lemma_content_index(contents.drop_last(), h);
        assert forall|j: int| 0 <= j < contents.len() - 1 implies contents[j] == contents.drop_last()[j] by {}
    }
}

/// Compresses `data` (whose digest is `hash`) for the archive, reusing a
/// cached result made with at least the wanted compression, and recording a
/// fresh result in the cache. Nothing means: store the data uncompressed.
pub fn compress(data: &[u8], options: &Options, hash: &[u8; 32], cache: &mut Option<Cache>) -> (r: Result<Vec<u8>, DeflateError>)
    ensures
        r is Ok,
        (*final(cache)) is Some <==> (*old(cache)) is Some,
        match *old(cache) {
            Some(c) => match cached_compression(c.entries(), hash@, options.compression) {
                Some(v) => r == Ok::<Vec<u8>, DeflateError>(r->Ok_0) && r->Ok_0@ == v
                    && (*final(cache))->0.entries() == c.entries(),
                None => match r {
                    Ok(v) => v@ == fresh_compression(data@, options.compression)
                        && (*final(cache))->0.entries() == upsert(
                        c.entries(),
                        (
                            hash@,
                            ItemType::Generic,
                            CachedCompression::from_byte(recorded_compression(options.compression)),
                            VERSION,
                            v@,
                        ),
                    ),
                    Err(_) => (*final(cache))->0.entries() == c.entries(),
                },
            },
            None => r matches Ok(v) ==> v@ == fresh_compression(data@, options.compression),
        },
{
    match cache {
        Some(c) => {
            match c.get(hash, ItemType::Generic) {
                Some(item) => {
                    if item.compression.to_u8() >= options.compression.to_u8() {
                        return Ok(item.data.clone());
                    }
                },
                None => {},
            }
        },
        None => {},
    }
    let (compressed, recorded): (Vec<u8>, u8) = match options.compression {
        Compression::Fast => {
            if data.len() == 0 {
                (Vec::new(), 0)
            } else {
                (libdeflater_deflate(data, 12)?, 0)
            }
        },
        Compression::Normal => {
            if data.len() == 0 {
                (Vec::new(), 2)
            } else {
                (dynamic_deflate(data, Level::Normal, false)?, 2)
            }
        },
    };
    let out = if compressed.len() > data.len() {
        Vec::new()
    } else {
        compressed
    };
    match cache {
        Some(c) => {
            c.add_item_hash(hash, out.clone(), recorded, ItemType::Generic);
        },
        None => {},
    }
    Ok(out)
}

impl OptimizedZipWriter {
    pub closed spec fn written(&self) -> Seq<u8> {
        self.output@
    }

    /// The digest of each distinct content written, and where it is.
    pub closed spec fn contents(&self) -> Seq<(Seq<u8>, CachedFileData)> {
        self.content_cache@.map_values(|e: ([u8; 32], CachedFileData)| (e.0@, e.1))
    }

    /// The central directory entries, in the order the files were added.
    pub closed spec fn entries(&self) -> Seq<(Seq<u8>, u16, u32, u32)> {
        self.cd_entries@.map_values(|e: CentralDirectoryEntry| cd_view(e))
    }

    /// The archive `finish` gives: the local records, the central directory and
    /// the end of central directory record.
    pub open spec fn finished(&self) -> Seq<u8> {
        self.written() + central_records(self.entries()) + end_record(
            central_records(self.entries()).len() as u32,
            self.written().len() as u32,
        )
    }

    /// Every content's local record lies in the output, and every central
    /// directory entry points at a content.
    pub open spec fn wf(&self) -> bool {
        &&& forall|i: int| 0 <= i < self.contents().len() ==> record_at(self.written(), #[trigger] self.contents()[i].1)
        &&& forall|k: int| 0 <= k < self.entries().len() ==> points_at_content(self.contents(), #[trigger] self.entries()[k])
    }

    /// An empty archive.
    pub fn new() -> (r: Self)
        ensures
            r.written() == Seq::<u8>::empty(),
            r.contents() == Seq::<(Seq<u8>, CachedFileData)>::empty(),
            r.entries() == Seq::<(Seq<u8>, u16, u32, u32)>::empty(),
            r.wf(),
    {
        let r = OptimizedZipWriter { content_cache: Vec::new(), output: Vec::new(), cd_entries: Vec::new() };
        assert(r.contents() =~= Seq::<(Seq<u8>, CachedFileData)>::empty());
        assert(r.entries() =~= Seq::<(Seq<u8>, u16, u32, u32)>::empty());
        r
    }

    fn find_content(&self, hash: &[u8; 32]) -> (r: Option<CachedFileData>)
        ensures
            match content_index(self.contents(), hash@) {
                Some(i) => r == Some(self.contents()[i].1),
                None => r is None,
            },
    {
        proof {
            lemma_content_index(self.contents(), hash@);
        }
        let mut i: usize = 0;
        while i < self.content_cache.len()
            invariant
                i <= self.content_cache.len(),
                self.contents().len() == self.content_cache.len(),
                forall|j: int| 0 <= j < i ==> self.contents()[j].0 != hash@,
            decreases self.content_cache.len() - i,
        {
            assert(self.contents()[i as int] == (self.content_cache@[i as int].0@, self.content_cache@[i as int].1));
            if same_hash(&self.content_cache[i].0, hash) {
                proof {
                    lemma_content_index(self.contents(), hash@);
                    let k = content_index(self.contents(), hash@);
                    assert(k is Some);
                    if k->0 < i {
                        assert(self.contents()[k->0].0 != hash@);
                    }
                }
                return Some(self.content_cache[i].1);
            }
            i = i + 1;
        }
        None
    }

    fn record_entry(&mut self, filename: &str, data: CachedFileData)
        ensures
            final(self).written() == old(self).written(),
            final(self).contents() == old(self).contents(),
            final(self).entries() == old(self).entries().push(
                (filename.spec_bytes(), data.compression_method, data.compressed_size, data.header_offset),
            ),
    {
        let entry = CentralDirectoryEntry {
            filename: filename.to_owned(),
            compression_method: data.compression_method,
            compressed_size: data.compressed_size,
            header_offset: data.header_offset,
        };
        self.cd_entries.push(entry);
        assert(self.entries() =~= old(self).entries().push(
            (filename.spec_bytes(), data.compression_method, data.compressed_size, data.header_offset),
        ));
    }

    /// Adds a file. A content written before is not written again: the new
    /// entry points at the earlier local header. Otherwise the content is
    /// compressed (see `compress`) and written, stored when compression gave
    /// nothing.
    pub fn add_file(&mut self, filename: &str, data: &[u8], options: &Options, cache: &mut Option<Cache>) -> (r: Result<(), DeflateError>)
        ensures
            r is Ok,
            old(self).wf() && final(self).written().len() <= u32::MAX ==> final(self).wf(),
            final(self).contents().len() >= old(self).contents().len(),
            final(self).contents().take(old(self).contents().len() as int) == old(self).contents(),
            r is Ok ==> final(self).entries().len() == old(self).entries().len() + 1 && final(self).entries().take(
                old(self).entries().len() as int,
            ) == old(self).entries() && final(self).entries().last().0 == filename.spec_bytes(),
            r is Ok ==> (content_index(final(self).contents(), sha256_of(data@)) matches Some(i)
                && final(self).contents()[i].1 == entry_data(final(self).entries().last())),
            (*final(cache)) is Some <==> (*old(cache)) is Some,
            (final(self).written(), final(self).contents(), final(self).entries(), cache_view(*final(cache)))
                == add_to(
                (old(self).written(), old(self).contents(), old(self).entries(), cache_view(*old(cache))),
                filename.spec_bytes(),
                data@,
                options.compression,
            ),
            match content_index(old(self).contents(), sha256_of(data@)) {
                Some(i) => {
                    let d = old(self).contents()[i].1;
                    &&& r is Ok
                    &&& final(self).written() == old(self).written()
                    &&& final(self).contents() == old(self).contents()
                    &&& final(self).entries() == old(self).entries().push(
                        (filename.spec_bytes(), d.compression_method, d.compressed_size, d.header_offset),
                    )
                    &&& *final(cache) == *old(cache)
                },
                None => match r {
                    Ok(_) => {
                        let compressed = chosen_compression(*old(cache), data@, options.compression);
                        let d = CachedFileData {
                            header_offset: old(self).written().len() as u32,
                            compression_method: method_for(compressed),
                            compressed_size: payload(data@, compressed).len() as u32,
                        };
                        &&& final(self).written() == old(self).written() + local_record(payload(data@, compressed))
                        &&& final(self).contents() == old(self).contents().push((sha256_of(data@), d))
                        &&& final(self).entries() == old(self).entries().push(
                            (filename.spec_bytes(), d.compression_method, d.compressed_size, d.header_offset),
                        )
                    },
                    Err(_) => final(self).written() == old(self).written() && final(self).contents()
                        == old(self).contents() && final(self).entries() == old(self).entries(),
                },
            },
    {
        let ghost old_c = self.contents();
        let ghost old_e = self.entries();
        let hash = sha256(data);
        match self.find_content(&hash) {
            Some(cached) => {
                self.record_entry(filename, cached);
                proof {
                    lemma_content_index(old_c, hash@);
                    let i = content_index(old_c, hash@)->0;
                    assert(self.entries()[old_e.len() as int] == (filename.spec_bytes(), cached.compression_method, cached.compressed_size, cached.header_offset));
                    assert(self.contents()[i].1 == entry_data(self.entries()[old_e.len() as int]));
                    if old(self).wf() {
                        assert forall|k: int| 0 <= k < self.entries().len() implies points_at_content(self.contents(), #[trigger] self.entries()[k]) by {
                            if k < old_e.len() {
                                assert(self.entries()[k] == old_e[k]);
                                assert(points_at_content(old_c, old_e[k]));
                            }
                        }
                    }
                }
                return Ok(());
            },
            None => {},
        }
        let compressed = compress(data, options, &hash, cache)?;
        let using_store = compressed.len() == 0;
        let compressed_size: u32 = if using_store {
            data.len() as u32
        } else {
            compressed.len() as u32
        };
        let compression_method: u16 = if using_store {
            0
        } else {
            8
        };
        let header_offset = self.output.len() as u32;
        let ghost before = self.output@;
        let signature = u32_to_le_bytes(0x04034b50);
        push_bytes(&mut self.output, signature.as_slice());
        push_zeros(&mut self.output, 26);
        if using_store {
            push_bytes(&mut self.output, data);
        } else {
            push_bytes(&mut self.output, compressed.as_slice());
        }
        assert(self.output@ =~= before + local_record(payload(data@, compressed@)));
        let new_cache = CachedFileData { header_offset, compression_method, compressed_size };
        let ghost old_contents = self.contents();
        self.content_cache.push((hash, new_cache));
        assert(self.contents() =~= old_contents.push((hash@, new_cache)));
        self.record_entry(filename, new_cache);
        proof {
            assert(self.contents().drop_last() =~= old_c);
            assert(self.contents().take(old_c.len() as int) =~= old_c);
            if old(self).wf() && self.written().len() <= u32::MAX {
                let p = payload(data@, compressed@);
                assert(new_cache.header_offset == before.len());
                assert(new_cache.compressed_size == p.len());
                assert forall|i: int| 0 <= i < self.contents().len() implies record_at(self.written(), #[trigger] self.contents()[i].1) by {
                    if i < old_contents.len() {
                        assert(self.contents()[i] == old_contents[i]);
                        lemma_record_kept(before, local_record(p), old_contents[i].1);
                    } else {
                        lemma_new_record(before, p, new_cache);
                    }
                }
                let last = old_contents.len() as int;
                assert(self.contents()[last].1 == entry_data(self.entries()[old_e.len() as int]));
                assert forall|k: int| 0 <= k < self.entries().len() implies points_at_content(self.contents(), #[trigger] self.entries()[k]) by {
                    if k < old_e.len() {
                        assert(self.entries()[k] == old_e[k]);
                        assert(points_at_content(old_c, old_e[k]));
                        let i = choose|i: int| 0 <= i < old_c.len() && (#[trigger] old_c[i]).1 == entry_data(old_e[k]);
                        assert(self.contents()[i] == old_c[i]);
                    }
                }
            }
        }
        Ok(())
    }

    /// The finished archive: the local records, the central directory and the
    /// end of central directory record.
    pub fn finish(self) -> (r: Vec<u8>)
        ensures
            r@ == self.finished(),
    {
        let mut out = self.output;
        let cd_start = out.len() as u32;
        let ghost start = out@;
        let mut cd: Vec<u8> = Vec::new();
        let mut i: usize = 0;
        while i < self.cd_entries.len()
            invariant
                i <= self.cd_entries.len(),
                self.entries().len() == self.cd_entries.len(),
                cd@ == central_records(self.entries().take(i as int)),
            decreases self.cd_entries.len() - i,
        {
            let entry = &self.cd_entries[i];
            let ghost before = cd@;
            let name = entry.filename.as_str().as_bytes();
            push_bytes(&mut cd, u32_to_le_bytes(0x02014b50).as_slice());
            push_zeros(&mut cd, 6);
            push_bytes(&mut cd, u16_to_le_bytes(entry.compression_method).as_slice());
            push_zeros(&mut cd, 8);
            push_bytes(&mut cd, u32_to_le_bytes(entry.compressed_size).as_slice());
            push_zeros(&mut cd, 4);
            push_bytes(&mut cd, u16_to_le_bytes(name.len() as u16).as_slice());
            push_zeros(&mut cd, 12);
            push_bytes(&mut cd, u32_to_le_bytes(entry.header_offset).as_slice());
            push_bytes(&mut cd, name);
            proof {
                let t = self.entries().take(i + 1);
                assert(t.drop_last() =~= self.entries().take(i as int));
                assert(t.last() == cd_view(self.cd_entries@[i as int]));
                assert(cd@ =~= before + central_record(t.last().0, t.last().1, t.last().2, t.last().3));
            }
            i = i + 1;
        }
        assert(self.entries().take(self.cd_entries.len() as int) =~= self.entries());
        let cd_size = cd.len() as u32;
        push_bytes(&mut out, cd.as_slice());
        let ghost with_cd = out@;
        push_bytes(&mut out, u32_to_le_bytes(0x06054b50).as_slice());
        push_bytes(&mut out, u16_to_le_bytes(0xFFFF).as_slice());
        push_zeros(&mut out, 6);
        push_bytes(&mut out, u32_to_le_bytes(cd_size).as_slice());
        push_bytes(&mut out, u32_to_le_bytes(cd_start).as_slice());
        push_zeros(&mut out, 2);
        assert(out@ =~= with_cd + end_record(cd_size, cd_start));
        out
    }
}

/// In a finished archive, every central directory entry points at a local
/// file header followed by the entry's compressed size of data, all before
/// the central directory; the part before the central directory is what was
/// written.
pub proof fn finished_entries_point_at_records(w: OptimizedZipWriter)
    requires
        w.wf(),
    ensures
        w.finished().subrange(0, w.written().len() as int) == w.written(),
        forall|k: int| 0 <= k < w.entries().len() ==> record_at(w.finished(), #[trigger] entry_data(w.entries()[k])),
{
    let rest = central_records(w.entries()) + end_record(
        central_records(w.entries()).len() as u32,
        w.written().len() as u32,
    );
    assert(w.finished() =~= w.written() + rest);
    assert(w.finished().subrange(0, w.written().len() as int) =~= w.written());
    assert forall|k: int| 0 <= k < w.entries().len() implies record_at(w.finished(), #[trigger] entry_data(w.entries()[k])) by {
        assert(points_at_content(w.contents(), w.entries()[k]));
        let i = choose|i: int| 0 <= i < w.contents().len() && (#[trigger] w.contents()[i]).1 == entry_data(w.entries()[k]);
        assert(record_at(w.written(), w.contents()[i].1));
        lemma_record_kept(w.written(), rest, w.contents()[i].1);
    }
}

/// Contents are only ever appended, so once a content is written the first
/// copy stays where it is: for any later state of the writer (whose contents
/// extend the earlier ones, as `add_file` guarantees), a file with the same
/// digest is pointed at that same first copy by `add_file`.
pub proof fn first_copy_is_kept(
    earlier: Seq<(Seq<u8>, CachedFileData)>,
    later: Seq<(Seq<u8>, CachedFileData)>,
    h: Seq<u8>,
)
    requires
        earlier.len() <= later.len(),
        later.take(earlier.len() as int) == earlier,
        content_index(earlier, h) is Some,
    ensures
        content_index(later, h) == content_index(earlier, h),
        later[content_index(later, h)->0] == earlier[content_index(earlier, h)->0],
    decreases later.len(),
{
    if later.len() > earlier.len() {
        let shorter = later.drop_last();
        assert(shorter.take(earlier.len() as int) =~= later.take(earlier.len() as int));
        first_copy_is_kept(earlier, shorter, h);
        lemma_content_index(earlier, h);
    } else {
        assert(later =~= earlier);
    }
}

/// The name of the empty entry that goes first when unzipping is blocked: a
/// NUL character is refused in file names by every file system, which makes
/// extracting tools fail, while Minecraft ignores the entry.
pub open spec fn blocking_name() -> Seq<char> {
    seq!['a', 's', 's', 'e', 't', 's', '\0']
}

/// The names (UTF-8) of the central directory entries of an archive holding
/// `files`: the blocking entry first when `block`, then the files in order.
pub open spec fn archive_names(files: Seq<(Seq<char>, Seq<u8>)>, block: bool) -> Seq<Seq<u8>> {
    (if block {
        seq![encode_utf8(blocking_name())]
    } else {
        Seq::empty()
    }) + files.map_values(|f: (Seq<char>, Seq<u8>)| encode_utf8(f.0))
}

/// The data (UTF-8 names aside) of the archive's entries: the empty content
/// first when `block`, then the files' contents.
pub open spec fn archive_data(files: Seq<(Seq<char>, Seq<u8>)>, block: bool) -> Seq<Seq<u8>> {
    (if block {
        seq![Seq::<u8>::empty()]
    } else {
        Seq::empty()
    }) + files.map_values(|f: (Seq<char>, Seq<u8>)| f.1)
}

/// The writer and cache state after the blocking entry (when `block`) and
/// the first `n` files are added, starting from an empty writer and a cache
/// holding `cache`.
pub open spec fn archive_state(
    files: Seq<(Seq<char>, Seq<u8>)>,
    block: bool,
    compression: Compression,
    cache: Option<Seq<EntryView>>,
    n: int,
) -> WriterState
    decreases n,
{
    if n <= 0 {
        let start: WriterState = (Seq::empty(), Seq::empty(), Seq::empty(), cache);
        if block {
            add_to(start, encode_utf8(blocking_name()), Seq::empty(), compression)
        } else {
            start
        }
    } else {
        add_to(
            archive_state(files, block, compression, cache, n - 1),
            encode_utf8(files[n - 1].0),
            files[n - 1].1,
            compression,
        )
    }
}

/// The bytes of the archive holding `files` (see `write_archive`): the local
/// records, the central directory and the end record.
pub open spec fn archive_bytes(
    files: Seq<(Seq<char>, Seq<u8>)>,
    block: bool,
    compression: Compression,
    cache: Option<Seq<EntryView>>,
) -> Seq<u8> {
    let s = archive_state(files, block, compression, cache, files.len() as int);
    s.0 + central_records(s.2) + end_record(central_records(s.2).len() as u32, s.0.len() as u32)
}

/// Entry `k` of the writer points at a written content whose digest is that
/// of `data`.
pub open spec fn entry_holds(w: OptimizedZipWriter, k: int, data: Seq<u8>) -> bool {
    exists|i: int|
        0 <= i < w.contents().len() && (#[trigger] w.contents()[i]).0 == sha256_of(data) && w.contents()[i].1
            == entry_data(w.entries()[k])
}

/// Writes `files` (name, content) into an archive, in order, each distinct
/// content stored once. When `block_unzipping` is set, an empty file named
/// `assets` followed by a NUL character comes first, so that tools that
/// extract archives fail before they reach the data.
pub fn write_archive(files: &Vec<(String, Vec<u8>)>, options: &Options, cache: &mut Option<Cache>) -> (bytes: Vec<u8>)
    ensures
        (*final(cache)) is Some <==> (*old(cache)) is Some,
        bytes@ == archive_bytes(file_views(files@), options.block_unzipping, options.compression, cache_view(*old(cache))),
        cache_view(*final(cache)) == archive_state(
            file_views(files@),
            options.block_unzipping,
            options.compression,
            cache_view(*old(cache)),
            files.len() as int,
        ).3,
        exists|w: OptimizedZipWriter|
            {
                &&& bytes@ == w.finished()
                &&& w.entries().map_values(|e: (Seq<u8>, u16, u32, u32)| e.0) == archive_names(
                    file_views(files@),
                    options.block_unzipping,
                )
                &&& forall|k: int|
                    0 <= k < w.entries().len() ==> entry_holds(
                        w,
                        k,
                        #[trigger] archive_data(
                            file_views(files@),
                            options.block_unzipping,
                        )[k],
                    )
                &&& w.written().len() <= u32::MAX ==> w.wf()
            },
{
    let ghost fs = file_views(files@);
    let ghost names = archive_names(fs, options.block_unzipping);
    let ghost datas = archive_data(fs, options.block_unzipping);
    let ghost offset: int = if options.block_unzipping { 1 } else { 0 };
    let ghost cache0 = cache_view(*cache);
    let mut writer = OptimizedZipWriter::new();
    assert(writer.entries().map_values(|e: (Seq<u8>, u16, u32, u32)| e.0) =~= names.take(0));
    if options.block_unzipping {
        let name = "assets\0";
        proof {
            reveal_strlit("assets\0");
        }
        assert(name@ =~= blocking_name());
        let empty: Vec<u8> = Vec::new();
        let ghost before = writer;
        let _ = writer.add_file(name, empty.as_slice(), options, cache);
        proof {
            assert(names[0] == encode_utf8(blocking_name()));
            assert(writer.entries().map_values(|e: (Seq<u8>, u16, u32, u32)| e.0) =~= names.take(1));
            assert(datas[0] =~= empty@);
            lemma_entry_added(before, writer, empty@);
        }
    }
    let mut i: usize = 0;
    while i < files.len()
        invariant
            i <= files.len(),
            fs == file_views(files@),
            names == archive_names(fs, options.block_unzipping),
            datas == archive_data(fs, options.block_unzipping),
            offset == (if options.block_unzipping { 1int } else { 0int }),
            names.len() == datas.len() == fs.len() + offset,
            (*cache) is Some <==> (*old(cache)) is Some,
            writer.entries().len() == i + offset,
            writer.entries().map_values(|e: (Seq<u8>, u16, u32, u32)| e.0) == names.take(i + offset),
            forall|k: int| 0 <= k < writer.entries().len() ==> entry_holds(writer, k, #[trigger] datas[k]),
            writer.written().len() <= u32::MAX ==> writer.wf(),
            cache0 == cache_view(*old(cache)),
            (writer.written(), writer.contents(), writer.entries(), cache_view(*cache)) == archive_state(
                fs,
                options.block_unzipping,
                options.compression,
                cache0,
                i as int,
            ),
        decreases files.len() - i,
    {
        let ghost before = writer;
        let name = files[i].0.as_str();
        let data = files[i].1.as_slice();
        assert(fs[i as int] == (name@, data@));
        assert(names[i + offset] == name.spec_bytes());
        assert(datas[i + offset] == data@);
        let _ = writer.add_file(name, data, options, cache);
        proof {
            assert(writer.entries().map_values(|e: (Seq<u8>, u16, u32, u32)| e.0) =~= names.take(i + offset + 1));
            lemma_entry_added(before, writer, data@);
            assert forall|k: int| 0 <= k < writer.entries().len() implies entry_holds(writer, k, #[trigger] datas[k]) by {
                if k < before.entries().len() {
                    assert(entry_holds(before, k, datas[k]));
                }
            }
        }
        i = i + 1;
    }
    assert(names.take(files.len() + offset) =~= names);
    writer.finish()
}

/// What one successful `add_file` of `data` keeps and adds: the earlier
/// entries still point at contents of the same digests, and the new entry
/// points at a content with the digest of `data`.
proof fn lemma_entry_added(before: OptimizedZipWriter, after: OptimizedZipWriter, data: Seq<u8>)
    requires
        after.contents().len() >= before.contents().len(),
        after.contents().take(before.contents().len() as int) == before.contents(),
        after.entries().len() == before.entries().len() + 1,
        after.entries().take(before.entries().len() as int) == before.entries(),
        (content_index(after.contents(), sha256_of(data)) matches Some(i) && after.contents()[i].1 == entry_data(
            after.entries().last(),
        )),
    ensures
        forall|k: int, d: Seq<u8>|
            0 <= k < before.entries().len() && #[trigger] entry_holds(before, k, d) ==> entry_holds(after, k, d),
        entry_holds(after, before.entries().len() as int, data),
{
    assert forall|k: int, d: Seq<u8>|
        0 <= k < before.entries().len() && #[trigger] entry_holds(before, k, d) implies entry_holds(after, k, d) by {
        let i = choose|i: int|
            0 <= i < before.contents().len() && (#[trigger] before.contents()[i]).0 == sha256_of(d)
                && before.contents()[i].1 == entry_data(before.entries()[k]);
        assert(after.contents()[i] == after.contents().take(before.contents().len() as int)[i]);
        assert(after.entries()[k] == after.entries().take(before.entries().len() as int)[k]);
    }
    lemma_content_index(after.contents(), sha256_of(data));
    let i = content_index(after.contents(), sha256_of(data))->0;
    assert(after.contents()[i].0 == sha256_of(data));
}

/// What a content costs in the archive: a fresh compression is never longer
/// than the content, empty content is stored, and the bytes written for a
/// content are never longer than the content itself; they are stored (method
/// 0) exactly when compression gave nothing, and DEFLATE data (method 8)
/// otherwise.
pub proof fn stored_contents_never_grow(data: Seq<u8>, compression: Compression)
    ensures
        fresh_compression(data, compression).len() <= data.len(),
        data.len() == 0 ==> fresh_compression(data, compression).len() == 0,
        payload(data, fresh_compression(data, compression)).len() <= data.len(),
        method_for(fresh_compression(data, compression)) == 0 <==> fresh_compression(data, compression).len() == 0,
        method_for(fresh_compression(data, compression)) == 0 ==> payload(data, fresh_compression(data, compression))
            == data,
        method_for(fresh_compression(data, compression)) == 8 || method_for(fresh_compression(data, compression))
            == 0,
{
}

/// A cached compression is used only when the cache holds a result for the
/// same content (by digest) made with at least the wanted compression; a
/// result made with the wanted compression or better is always used.
pub proof fn cached_results_are_good_enough(entries: Seq<EntryView>, hash: Seq<u8>, compression: Compression)
    ensures
        cached_compression(entries, hash, compression) matches Some(v) ==> (index_of_key(
            entries,
            (hash, ItemType::Generic),
        ) matches Some(i) && entries[i].4 == v && entries[i].2.byte() >= compression.byte()),
        forall|i: int|
            index_of_key(entries, (hash, ItemType::Generic)) == Some(i) && entries[i].2.byte() >= compression.byte()
                ==> cached_compression(entries, hash, compression) == Some(#[trigger] entries[i].4),
{
}

/// A fresh result is recorded in the cache as made with at least the
/// compression it was made with, so a later run that wants the same (or a
/// lower) compression takes it from the cache.
pub proof fn fresh_results_serve_later_runs(made: Compression, wanted: Compression)
    ensures
        wanted.byte() <= made.byte() ==> CachedCompression::from_byte(recorded_compression(made)).byte()
            >= wanted.byte(),
{
}

} // verus!
