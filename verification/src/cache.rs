//! The cache of optimized data, keyed by the digest of the data it replaces,
//! and its file format.
//!
//! File layout: the magic number `PACKOBF1`, the number of entries (u64 LE),
//! then per entry the 32-byte key hash, the item type byte, the compression
//! byte, the version (u16 LE), the data length (u64 LE) and the data.
use crate::digest::{sha256, sha256_of};
use vstd::bytes::{
    spec_u16_from_le_bytes, spec_u16_to_le_bytes, spec_u64_from_le_bytes, spec_u64_to_le_bytes,
    u16_from_le_bytes, u16_to_le_bytes, u64_from_le_bytes, u64_to_le_bytes,
};
use vstd::prelude::*;
use vstd::slice::slice_subrange;

verus! {

/// The version of the entries this build writes; entries of other versions
/// are skipped when a cache file is read.
pub const VERSION: u16 = 1;

pub open spec fn magic_number() -> Seq<u8> {
    seq![80u8, 65u8, 67u8, 75u8, 79u8, 66u8, 70u8, 49u8]
}

pub struct CachedItem {
    pub compression: Compression,
    pub version: u16,
    pub data: Vec<u8>,
}

#[derive(Debug, Clone, Copy, PartialEq, Eq, Structural)]
pub enum Compression {
    Fastest,
    Normal,
    Best,
}

impl Compression {
    pub open spec fn byte(self) -> u8 {
        match self {
            Compression::Fastest => 0,
            Compression::Normal => 1,
            Compression::Best => 2,
        }
    }

    pub open spec fn from_byte(value: u8) -> Compression {
        if value == 0 {
            Compression::Fastest
        } else if value == 2 {
            Compression::Best
        } else {
            Compression::Normal
        }
    }

    /// The byte stored for this compression.
    pub fn to_u8(self) -> (r: u8)
        ensures
            r == self.byte(),
    {
        match self {
            Compression::Fastest => 0,
            Compression::Normal => 1,
            Compression::Best => 2,
        }
    }

    /// Reads a stored compression byte; unknown values read as `Normal`.
    pub fn from_u8(value: u8) -> (r: Compression)
        ensures
            r == Self::from_byte(value),
    {
        match value {
            0 => Compression::Fastest,
            2 => Compression::Best,
            _ => Compression::Normal,
        }
    }
}

#[derive(Debug, Clone, Copy, PartialEq, Eq, Structural)]
pub enum ItemType {
    Generic,
    Image,
    Sound,
}

impl ItemType {
    pub open spec fn byte(self) -> u8 {
        match self {
            ItemType::Generic => 0,
            ItemType::Image => 1,
            ItemType::Sound => 2,
        }
    }

    pub open spec fn from_byte(value: u8) -> ItemType {
        if value == 1 {
            ItemType::Image
        } else if value == 2 {
            ItemType::Sound
        } else {
            ItemType::Generic
        }
    }

    /// The byte stored for this item type.
    pub fn to_u8(self) -> (r: u8)
        ensures
            r == self.byte(),
    {
        match self {
            ItemType::Generic => 0,
            ItemType::Image => 1,
            ItemType::Sound => 2,
        }
    }

    /// Reads a stored item type byte; unknown values read as `Generic`.
    pub fn from_u8(value: u8) -> (r: ItemType)
        ensures
            r == Self::from_byte(value),
    {
        match value {
            1 => ItemType::Image,
            2 => ItemType::Sound,
            _ => ItemType::Generic,
        }
    }
}

/// A cache key: the digest of the original data and the kind of item.
#[derive(Debug, Clone, Copy)]
pub struct CachedItemKey {
    hash: [u8; 32],
    item_type: ItemType,
}

impl CachedItemKey {
    pub fn new(hash: [u8; 32], item_type: ItemType) -> (r: Self)
        ensures
            r.key() == (hash@, item_type),
    {
        CachedItemKey { hash, item_type }
    }

    pub closed spec fn key(&self) -> (Seq<u8>, ItemType) {
        (self.hash@, self.item_type)
    }
}

/// An entry as the specifications see it: key hash, item type, compression,
/// version and data.
pub type EntryView = (Seq<u8>, ItemType, Compression, u16, Seq<u8>);

pub open spec fn key_of(e: EntryView) -> (Seq<u8>, ItemType) {
    (e.0, e.1)
}

/// The first position of an entry with key `k`.
pub open spec fn index_of_key(s: Seq<EntryView>, k: (Seq<u8>, ItemType)) -> Option<int>
    decreases s.len(),
{
    if s.len() == 0 {
        None
    } else {
        match index_of_key(s.drop_last(), k) {
            Some(i) => Some(i),
            None => if key_of(s.last()) == k {
                Some(s.len() - 1)
            } else {
                None
            },
        }
    }
}

/// `s` with `e` stored under its key: replacing the entry with that key, or
/// added at the end.
pub open spec fn upsert(s: Seq<EntryView>, e: EntryView) -> Seq<EntryView> {
    match index_of_key(s, key_of(e)) {
        Some(i) => s.update(i, e),
        None => s.push(e),
    }
}

/// No two entries share a key.
pub open spec fn keys_unique(s: Seq<EntryView>) -> bool {
    forall|i: int, j: int| 0 <= i < j < s.len() ==> key_of(s[i]) != key_of(s[j])
}

/// Every entry has a 32-byte hash and the current version.
pub open spec fn entries_current(s: Seq<EntryView>) -> bool {
    forall|i: int| 0 <= i < s.len() ==> s[i].0.len() == 32 && s[i].3 == VERSION
}

pub proof fn lemma_index_of_key(s: Seq<EntryView>, k: (Seq<u8>, ItemType))
    ensures
        match index_of_key(s, k) {
            Some(i) => 0 <= i < s.len() && key_of(s[i]) == k && forall|j: int|
                0 <= j < i ==> key_of(s[j]) != k,
            None => forall|j: int| 0 <= j < s.len() ==> key_of(s[j]) != k,
        },
    decreases s.len(),
{
    if s.len() > 0 {
        lemma_index_of_key(s.drop_last(), k);
        assert forall|j: int| 0 <= j < s.len() - 1 implies s[j] == s.drop_last()[j] by {}
    }
}

/// The items of a cache, each key present at most once.
pub struct Cache {
    items: Vec<(CachedItemKey, CachedItem)>,
}

pub open spec fn entry_view(e: (CachedItemKey, CachedItem)) -> EntryView {
    (e.0.key().0, e.0.key().1, e.1.compression, e.1.version, e.1.data@)
}

impl Cache {
    /// The entries, in the order they were first added.
    pub closed spec fn entries(&self) -> Seq<EntryView> {
        self.items@.map_values(|e: (CachedItemKey, CachedItem)| entry_view(e))
    }

    #[verifier::type_invariant]
    closed spec fn well_formed(self) -> bool {
        &&& keys_unique(self.entries())
        &&& entries_current(self.entries())
    }

    /// An empty cache.
    pub fn new() -> (r: Self)
        ensures
            r.entries() == Seq::<EntryView>::empty(),
    {
        let r = Cache { items: Vec::new() };
        assert(r.entries() =~= Seq::<EntryView>::empty());
        r
    }

    /// The number of items.
    pub fn len(&self) -> (r: usize)
        ensures
            r == self.entries().len(),
    {
        self.items.len()
    }

    fn position(&self, hash: &[u8; 32], item_type: ItemType) -> (r: Option<usize>)
        ensures
            match r {
                Some(i) => i < self.entries().len() && index_of_key(self.entries(), (hash@, item_type))
                    == Some(i as int),
                None => index_of_key(self.entries(), (hash@, item_type)) == None::<int>,
            },
            self.entries().len() == self.items.len(),
    {
        let mut i: usize = 0;
        while i < self.items.len()
            invariant
                i <= self.items.len(),
                forall|j: int| 0 <= j < i ==> key_of(#[trigger] self.entries()[j]) != (hash@, item_type),
            decreases self.items.len() - i,
        {
            let key = &self.items[i].0;
            let mut same = key.item_type == item_type;
            let mut b: usize = 0;
            while b < 32
                invariant
                    b <= 32,
                    same == (key.item_type == item_type && forall|j: int| 0 <= j < b ==> key.hash@[j] == hash@[j]),
                decreases 32 - b,
            {
                same = same && key.hash[b] == hash[b];
                b = b + 1;
            }
            assert(same == (key.key() == (hash@, item_type))) by {
                if same {
                    assert(key.hash@ =~= hash@);
                }
            }
            assert(self.entries()[i as int] == entry_view(self.items@[i as int]));
            if same {
                proof {
                    lemma_index_of_key(self.entries(), (hash@, item_type));
                }
                return Some(i);
            }
            i = i + 1;
        }
        proof {
            lemma_index_of_key(self.entries(), (hash@, item_type));
        }
        None
    }

    /// The item stored under `hash` and `item_type`, if any.
    pub fn get(&self, hash: &[u8; 32], item_type: ItemType) -> (r: Option<&CachedItem>)
        ensures
            match index_of_key(self.entries(), (hash@, item_type)) {
                Some(i) => r matches Some(item) && (item.compression, item.version, item.data@) == (
                    self.entries()[i].2,
                    self.entries()[i].3,
                    self.entries()[i].4,
                ),
                None => r is None,
            },
    {
        match self.position(hash, item_type) {
            Some(i) => {
                assert(self.entries()[i as int] == entry_view(self.items@[i as int]));
                Some(&self.items[i].1)
            },
            None => None,
        }
    }

    /// Stores `data` under `hash` and `item_type`, with the current version,
    /// replacing any item with that key.
    pub fn add_item_hash(&mut self, hash: &[u8; 32], data: Vec<u8>, compression: u8, item_type: ItemType)
        ensures
            final(self).entries() == upsert(
                old(self).entries(),
                (hash@, item_type, Compression::from_byte(compression), VERSION, data@),
            ),
    {
        proof {
            use_type_invariant(&*self);
            lemma_index_of_key(self.entries(), (hash@, item_type));
        }
        let key = CachedItemKey::new(*hash, item_type);
        let item = CachedItem { compression: Compression::from_u8(compression), version: VERSION, data };
        let ghost e = (hash@, item_type, Compression::from_byte(compression), VERSION, item.data@);
        let ghost before = self.entries();
        match self.position(hash, item_type) {
            Some(i) => {
                let mut items: Vec<(CachedItemKey, CachedItem)> = Vec::new();
                std::mem::swap(&mut items, &mut self.items);
                items.set(i, (key, item));
                assert(items@.map_values(|e: (CachedItemKey, CachedItem)| entry_view(e)) =~= before.update(i as int, e));
                assert(keys_unique(before.update(i as int, e))) by {
                    assert forall|a: int, b: int| 0 <= a < b < before.len() implies key_of(before.update(i as int, e)[a]) != key_of(before.update(i as int, e)[b]) by {
                        if a == i {
                            assert(key_of(before[i as int]) == key_of(e));
                        } else if b == i {
                            assert(key_of(before[i as int]) == key_of(e));
                        }
                    }
                }
                self.items = items;
            },
            None => {
                let mut items: Vec<(CachedItemKey, CachedItem)> = Vec::new();
                std::mem::swap(&mut items, &mut self.items);
                items.push((key, item));
                assert(items@.map_values(|e: (CachedItemKey, CachedItem)| entry_view(e)) =~= before.push(e));
                self.items = items;
            },
        }
    }

    /// Stores `data` under the digest of `old_bytes`, with the current version.
    pub fn add_item(&mut self, old_bytes: &[u8], data: Vec<u8>, compression: u8, item_type: ItemType)
        ensures
            final(self).entries() == upsert(
                old(self).entries(),
                (sha256_of(old_bytes@), item_type, Compression::from_byte(compression), VERSION, data@),
            ),
    {
        let hash = sha256(old_bytes);
        self.add_item_hash(&hash, data, compression, item_type);
    }
}

/// Why a cache file could not be read.
#[derive(Debug, Clone, Copy, PartialEq, Eq, Structural)]
pub enum CacheError {
    /// The file ends inside a field.
    UnexpectedEof,
    /// The file does not start with the magic number.
    InvalidData,
}

/// The bytes stored for one entry.
pub open spec fn encode_entry(e: EntryView) -> Seq<u8> {
    e.0 + seq![e.1.byte(), e.2.byte()] + spec_u16_to_le_bytes(e.3) + spec_u64_to_le_bytes(
        e.4.len() as u64,
    ) + e.4
}

/// The bytes stored for a sequence of entries.
pub open spec fn encode_entries(s: Seq<EntryView>) -> Seq<u8>
    decreases s.len(),
{
    if s.len() == 0 {
        Seq::empty()
    } else {
        encode_entries(s.drop_last()) + encode_entry(s.last())
    }
}

/// The whole cache file for `s`.
pub open spec fn encode_cache(s: Seq<EntryView>) -> Seq<u8> {
    magic_number() + spec_u64_to_le_bytes(s.len() as u64) + encode_entries(s)
}

/// Size of the fixed part of an entry: hash, type, compression, version, length.
pub open spec fn entry_header_len() -> int {
    44
}

/// Reads `count` entries from `b` at `off`, storing into `acc` those of the
/// current version (a later entry replaces an earlier one with the same key).
pub open spec fn decode_entries(b: Seq<u8>, off: int, count: nat, acc: Seq<EntryView>) -> Result<
    Seq<EntryView>,
    CacheError,
>
    decreases count,
{
    if count == 0 {
        Ok(acc)
    } else if off < 0 || off + entry_header_len() > b.len() {
        Err(CacheError::UnexpectedEof)
    } else {
        let n = spec_u64_from_le_bytes(b.subrange(off + 36, off + 44));
        if off + 44 + n > b.len() {
            Err(CacheError::UnexpectedEof)
        } else {
            let e = (
                b.subrange(off, off + 32),
                ItemType::from_byte(b[off + 32]),
                Compression::from_byte(b[off + 33]),
                spec_u16_from_le_bytes(b.subrange(off + 34, off + 36)),
                b.subrange(off + 44, off + 44 + n),
            );
            decode_entries(
                b,
                off + 44 + n,
                (count - 1) as nat,
                if e.3 == VERSION {
                    upsert(acc, e)
                } else {
                    acc
                },
            )
        }
    }
}

/// What reading the cache file `b` gives.
pub open spec fn decode_cache(b: Seq<u8>) -> Result<Seq<EntryView>, CacheError> {
    if b.len() < 8 {
        Err(CacheError::UnexpectedEof)
    } else if b.subrange(0, 8) != magic_number() {
        Err(CacheError::InvalidData)
    } else if b.len() < 16 {
        Err(CacheError::UnexpectedEof)
    } else {
        decode_entries(b, 16, spec_u64_from_le_bytes(b.subrange(8, 16)) as nat, Seq::empty())
    }
}

fn push_bytes(out: &mut Vec<u8>, src: &[u8])
    ensures
        final(out)@ == old(out)@ + src@,
{
    let mut i: usize = 0;
    while i < src.len()
        invariant
            i <= src.len(),
            out@ == old(out)@ + src@.subrange(0, i as int),
        decreases src.len() - i,
    {
        out.push(src[i]);
        i = i + 1;
    }
    assert(src@.subrange(0, src.len() as int) =~= src@);
}

impl Cache {
    /// The bytes of the cache file for this cache.
    pub fn to_bytes(&self) -> (r: Vec<u8>)
        ensures
            r@ == encode_cache(self.entries()),
            keys_unique(self.entries()),
            entries_current(self.entries()),
            decode_cache(r@) == Ok::<Seq<EntryView>, CacheError>(self.entries()),
    {
        proof {
            use_type_invariant(self);
        }
        let mut out: Vec<u8> = vec![80u8, 65u8, 67u8, 75u8, 79u8, 66u8, 70u8, 49u8];
        assert(out@ =~= magic_number());
        let count = u64_to_le_bytes(self.items.len() as u64);
        push_bytes(&mut out, count.as_slice());
        let ghost head = out@;
        let mut i: usize = 0;
        while i < self.items.len()
            invariant
                i <= self.items.len(),
                self.entries().len() == self.items.len(),
                out@ == head + encode_entries(self.entries().take(i as int)),
                forall|j: int| 0 <= j < i ==> (#[trigger] self.entries()[j]).4.len() <= u64::MAX,
            decreases self.items.len() - i,
        {
            let entry = &self.items[i];
            push_bytes(&mut out, entry.0.hash.as_slice());
            out.push(entry.0.item_type.to_u8());
            out.push(entry.1.compression.to_u8());
            push_bytes(&mut out, u16_to_le_bytes(entry.1.version).as_slice());
            push_bytes(&mut out, u64_to_le_bytes(entry.1.data.len() as u64).as_slice());
            push_bytes(&mut out, entry.1.data.as_slice());
            proof {
                let t = self.entries().take(i + 1);
                assert(t.drop_last() =~= self.entries().take(i as int));
                assert(t.last() == entry_view(self.items@[i as int]));
                assert(out@ =~= head + (encode_entries(t.drop_last()) + encode_entry(t.last())));
                assert(self.entries()[i as int].4.len() == entry.1.data.len());
            }
            i = i + 1;
        }
        assert(self.entries().take(self.items.len() as int) =~= self.entries());
        proof {
            cache_file_round_trip(self.entries());
        }
        out
    }
}

fn hash_at(b: &[u8], off: usize) -> (r: [u8; 32])
    requires
        off + 32 <= b.len(),
    ensures
        r@ == b@.subrange(off as int, off + 32),
{
    let mut hash = [0u8; 32];
    let mut j: usize = 0;
    while j < 32
        invariant
            j <= 32,
            off + 32 <= b.len(),
            forall|k: int| 0 <= k < j ==> hash@[k] == b@[off + k],
        decreases 32 - j,
    {
        hash[j] = b[off + j];
        j = j + 1;
    }
    assert(hash@ =~= b@.subrange(off as int, off + 32));
    hash
}

impl Cache {
    /// Stores an entry read from a file (of the current version).
    fn upsert_entry(&mut self, key: CachedItemKey, item: CachedItem)
        requires
            item.version == VERSION,
            key.key().0.len() == 32,
        ensures
            final(self).entries() == upsert(old(self).entries(), entry_view((key, item))),
    {
        let hash = key.hash;
        let compression = item.compression.to_u8();
        assert(Compression::from_byte(compression) == item.compression) by {
            match item.compression {
                Compression::Fastest => {},
                Compression::Normal => {},
                Compression::Best => {},
            }
        }
        self.add_item_hash(&hash, item.data, compression, key.item_type);
    }

    /// Reads a cache from the contents of its file, `None` when there is no
    /// file: no file gives an empty cache; otherwise as `from_bytes`.
    pub fn from_file_contents(contents: Option<&[u8]>) -> (r: Result<Cache, CacheError>)
        ensures
            match contents {
                None => r matches Ok(c) && c.entries() == Seq::<EntryView>::empty(),
                Some(b) => match decode_cache(b@) {
                    Ok(s) => r matches Ok(c) && c.entries() == s,
                    Err(e) => r == Err::<Cache, CacheError>(e),
                },
            },
    {
        match contents {
            None => Ok(Cache::new()),
            Some(b) => Cache::from_bytes(b),
        }
    }


    /// Reads a cache file; entries of other versions are skipped and a later
    /// entry replaces an earlier one with the same key.
    pub fn from_bytes(b: &[u8]) -> (r: Result<Cache, CacheError>)
        ensures
            match decode_cache(b@) {
                Ok(s) => r matches Ok(c) && c.entries() == s,
                Err(e) => r == Err::<Cache, CacheError>(e),
            },
    {
        if b.len() < 8 {
            return Err(CacheError::UnexpectedEof);
        }
        let magic = vec![80u8, 65u8, 67u8, 75u8, 79u8, 66u8, 70u8, 49u8];
        assert(magic@ =~= magic_number());
        let mut j: usize = 0;
        while j < 8
            invariant
                j <= 8 <= b.len(),
                magic@ == magic_number(),
                forall|k: int| 0 <= k < j ==> b@[k] == magic@[k],
            decreases 8 - j,
        {
            if b[j] != magic[j] {
                assert(b@.subrange(0, 8)[j as int] != magic_number()[j as int]);
                return Err(CacheError::InvalidData);
            }
            j = j + 1;
        }
        assert(b@.subrange(0, 8) =~= magic_number());
        if b.len() < 16 {
            return Err(CacheError::UnexpectedEof);
        }
        let count = u64_from_le_bytes(slice_subrange(b, 8, 16));
        let mut cache = Cache::new();
        let mut off: usize = 16;
        let mut i: u64 = 0;
        while i < count
            invariant
                i <= count,
                16 <= off <= b.len(),
                decode_cache(b@) == decode_entries(b@, off as int, (count - i) as nat, cache.entries()),
            decreases count - i,
        {
            if b.len() - off < 44 {
                return Err(CacheError::UnexpectedEof);
            }
            let n = u64_from_le_bytes(slice_subrange(b, off + 36, off + 44));
            if n > (b.len() - off - 44) as u64 {
                return Err(CacheError::UnexpectedEof);
            }
            let end = off + 44 + n as usize;
            let hash = hash_at(b, off);
            let item_type = ItemType::from_u8(b[off + 32]);
            let compression = Compression::from_u8(b[off + 33]);
            let version = u16_from_le_bytes(slice_subrange(b, off + 34, off + 36));
            let mut data: Vec<u8> = Vec::new();
            push_bytes(&mut data, slice_subrange(b, off + 44, end));
            if version == VERSION {
                let key = CachedItemKey::new(hash, item_type);
                let item = CachedItem { compression, version, data };
                cache.upsert_entry(key, item);
            }
            off = end;
            i = i + 1;
        }
        Ok(cache)
    }
}

proof fn lemma_encode_prefix(s: Seq<EntryView>, k: int)
    requires
        0 <= k <= s.len(),
    ensures
        encode_entries(s.take(k)).len() <= encode_entries(s).len(),
        encode_entries(s).subrange(0, encode_entries(s.take(k)).len() as int) == encode_entries(s.take(k)),
    decreases s.len(),
{
    if k == s.len() {
        assert(s.take(k) =~= s);
    } else {
        let d = s.drop_last();
        assert(d.take(k) =~= s.take(k));
        lemma_encode_prefix(d, k);
        let e = encode_entries(d);
        let p = encode_entries(s.take(k));
        assert(encode_entries(s) == e + encode_entry(s.last()));
        assert((e + encode_entry(s.last())).subrange(0, p.len() as int) =~= e.subrange(0, p.len() as int));
    }
}

/// A file written for valid entries (distinct keys, current version) is a
/// valid encoding, for the round-trip proof.
pub open spec fn encodable(s: Seq<EntryView>) -> bool {
    &&& keys_unique(s)
    &&& entries_current(s)
    &&& s.len() <= u64::MAX
    &&& forall|i: int| 0 <= i < s.len() ==> s[i].4.len() <= u64::MAX
}

proof fn lemma_decode_from(s: Seq<EntryView>, k: int)
    requires
        encodable(s),
        0 <= k <= s.len(),
    ensures
        decode_entries(
            encode_cache(s),
            16 + encode_entries(s.take(k)).len() as int,
            (s.len() - k) as nat,
            s.take(k),
        ) == Ok::<Seq<EntryView>, CacheError>(s),
    decreases s.len() - k,
{
    let b = encode_cache(s);
    let off: int = 16 + encode_entries(s.take(k)).len() as int;
    vstd::bytes::lemma_auto_spec_u64_to_from_le_bytes();
    vstd::bytes::lemma_auto_spec_u16_to_from_le_bytes();
    let head = magic_number() + spec_u64_to_le_bytes(s.len() as u64);
    assert(head.len() == 16);
    if k == s.len() {
        assert(s.take(k) =~= s);
    } else {
        let e = s[k];
        let t1 = s.take(k + 1);
        assert(t1.drop_last() =~= s.take(k));
        assert(encode_entries(t1) == encode_entries(s.take(k)) + encode_entry(e));
        lemma_encode_prefix(s, k + 1);
        let body = encode_entries(s);
        let enc = encode_entry(e);
        let n: int = e.4.len() as int;
        assert(enc.len() == 44 + n);
        let off2 = off + 44 + n;
        assert(off2 == 16 + encode_entries(t1).len());
        assert(b == head + body);
        assert forall|j: int| 0 <= j < enc.len() implies b[off + j] == enc[j] by {
            assert(b[off + j] == body[off - 16 + j]);
            assert(body.subrange(0, encode_entries(t1).len() as int)[off - 16 + j] == body[off - 16 + j]);
            assert(encode_entries(t1)[off - 16 + j] == enc[j]);
        }
        assert(e.0.len() == 32);
        assert(enc.subrange(0, 32) =~= e.0);
        assert(enc[32] == e.1.byte());
        assert(enc[33] == e.2.byte());
        assert(enc.subrange(34, 36) =~= spec_u16_to_le_bytes(e.3));
        assert(enc.subrange(36, 44) =~= spec_u64_to_le_bytes(n as u64));
        assert(enc.subrange(44, 44 + n) =~= e.4);
        assert(b.subrange(off, off + 32) =~= enc.subrange(0, 32));
        assert(b.subrange(off + 34, off + 36) =~= enc.subrange(34, 36));
        assert(b.subrange(off + 36, off + 44) =~= enc.subrange(36, 44));
        assert(b.subrange(off + 44, off + 44 + n) =~= enc.subrange(44, 44 + n));
        assert(b[off + 32] == e.1.byte());
        assert(b[off + 33] == e.2.byte());
        assert(b.subrange(off + 34, off + 36) =~= spec_u16_to_le_bytes(e.3));
        assert(b.subrange(off + 36, off + 44) =~= spec_u64_to_le_bytes(n as u64));
        assert(b.subrange(off + 44, off + 44 + n) =~= e.4);
        assert(ItemType::from_byte(e.1.byte()) == e.1) by {
            match e.1 {
                ItemType::Generic => {},
                ItemType::Image => {},
                ItemType::Sound => {},
            }
        }
        assert(Compression::from_byte(e.2.byte()) == e.2) by {
            match e.2 {
                Compression::Fastest => {},
                Compression::Normal => {},
                Compression::Best => {},
            }
        }
        lemma_index_of_key(s.take(k), key_of(e));
        assert(index_of_key(s.take(k), key_of(e)) == None::<int>) by {
            if index_of_key(s.take(k), key_of(e)) is Some {
                let i = index_of_key(s.take(k), key_of(e))->0;
                assert(key_of(s[i]) == key_of(s[k]));
            }
        }
        assert(upsert(s.take(k), e) =~= t1);
        lemma_decode_from(s, k + 1);
    }
}

/// Writing a cache file and reading it back gives the same entries, in the
/// same order.
pub proof fn cache_file_round_trip(s: Seq<EntryView>)
    requires
        encodable(s),
    ensures
        decode_cache(encode_cache(s)) == Ok::<Seq<EntryView>, CacheError>(s),
{
    let b = encode_cache(s);
    vstd::bytes::lemma_auto_spec_u64_to_from_le_bytes();
    assert(b.subrange(0, 8) =~= magic_number());
    assert(b.subrange(8, 16) =~= spec_u64_to_le_bytes(s.len() as u64));
    assert(s.take(0) =~= Seq::<EntryView>::empty());
    lemma_decode_from(s, 0);
}

} // verus!
