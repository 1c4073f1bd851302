use packobf::cache::{Cache, CacheError, Compression as CachedCompression, ItemType};
use packobf::digest::sha256;
use packobf::optimized_zip_writer::{compress, OptimizedZipWriter};
use packobf::options::{Compression, Options};
use packobf::resource_pack::files::asset_texture::AssetTexture;
use packobf::resource_pack::files::sound::Sound;
use packobf::resource_pack::files::texture::{finish_png, CompressionValue, Texture};
use packobf::resource_pack::identifier::Identifier;
use packobf::LogLevel;

fn le16(b: &[u8], at: usize) -> usize {
    u16::from_le_bytes([b[at], b[at + 1]]) as usize
}

fn le32(b: &[u8], at: usize) -> usize {
    u32::from_le_bytes([b[at], b[at + 1], b[at + 2], b[at + 3]]) as usize
}

fn inflate(data: &[u8], size: usize) -> Vec<u8> {
    let mut out = vec![0u8; size];
    let n = libdeflater::Decompressor::new().deflate_decompress(data, &mut out).unwrap();
    out.truncate(n);
    out
}

/// (name, method, compressed size, offset) of each central directory entry.
fn central_directory(zip: &[u8]) -> Vec<(String, usize, usize, usize)> {
    let end = zip.len() - 22;
    assert_eq!(le32(zip, end), 0x06054b50);
    let size = le32(zip, end + 12);
    let start = le32(zip, end + 16);
    assert_eq!(start + size, end);
    let mut out = Vec::new();
    let mut at = start;
    while at < end {
        assert_eq!(le32(zip, at), 0x02014b50);
        let method = le16(zip, at + 10);
        let csize = le32(zip, at + 20);
        let name_len = le16(zip, at + 28);
        let offset = le32(zip, at + 42);
        let name = String::from_utf8(zip[at + 46..at + 46 + name_len].to_vec()).unwrap();
        out.push((name, method, csize, offset));
        at += 46 + name_len;
    }
    out
}

#[test]
fn archives_store_each_content_once() {
    let text = "{\"parent\":\"block/cube_all\",\"textures\":{\"all\":\"block/stone\"}}".repeat(20);
    let mut writer = OptimizedZipWriter::new();
    let options = Options::fast();
    let mut cache = None;
    writer.add_file("assets/a.json", text.as_bytes(), &options, &mut cache).unwrap();
    writer.add_file("assets/b.json", text.as_bytes(), &options, &mut cache).unwrap();
    writer.add_file("pack.png", &[1, 2, 3], &options, &mut cache).unwrap();
    let zip = writer.finish();
    let cd = central_directory(&zip);
    assert_eq!(cd.len(), 3);
    assert_eq!(cd[0].0, "assets/a.json");
    assert_eq!(cd[1].0, "assets/b.json");
    // the duplicate points at the same local record
    assert_eq!(cd[0].3, cd[1].3);
    assert_eq!(cd[0].1, 8);
    let (_, _, size, offset) = cd[0].clone();
    assert_eq!(le32(&zip, offset), 0x04034b50);
    assert_eq!(inflate(&zip[offset + 30..offset + 30 + size], text.len()), text.as_bytes());
    // three bytes do not compress: stored
    assert_eq!(cd[2].1, 0);
    assert_eq!(cd[2].2, 3);
    assert_eq!(zip[cd[2].3 + 30..cd[2].3 + 33], [1, 2, 3]);
}

#[test]
fn compression_reuses_good_enough_cached_results() {
    let data = b"abcabcabcabcabcabcabcabcabcabcabcabcabcabcabcabcabcabc".to_vec();
    let hash = sha256(&data);
    let mut cache = Some(Cache::new());
    let fast = compress(&data, &Options::fast(), &hash, &mut cache).unwrap();
    assert_eq!(inflate(&fast, data.len()), data);
    assert_eq!(cache.as_ref().unwrap().len(), 1);
    // a cached result made with at least the wanted compression is reused
    let again = compress(&data, &Options::fast(), &hash, &mut cache).unwrap();
    assert_eq!(again, fast);
    let mut normal = Options::fast();
    normal.compression = Compression::Normal;
    let better = compress(&data, &normal, &hash, &mut cache).unwrap();
    assert_eq!(inflate(&better, data.len()), data);
    assert_eq!(cache.as_ref().unwrap().len(), 1);
    assert_eq!(compress(&[], &normal, &sha256(&[]), &mut None).unwrap(), Vec::<u8>::new());
}

#[test]
fn cache_files_round_trip() {
    let mut cache = Cache::new();
    cache.add_item_hash(&[7u8; 32], vec![1, 2, 3], 2, ItemType::Generic);
    cache.add_item(b"original", vec![9, 9], 0, ItemType::Sound);
    cache.add_item_hash(&[7u8; 32], vec![4, 5], 1, ItemType::Generic);
    assert_eq!(cache.len(), 2);
    let bytes = cache.to_bytes();
    assert_eq!(bytes[0..8], *b"PACKOBF1");
    assert_eq!(bytes[8..16], 2u64.to_le_bytes());
    let read = Cache::from_bytes(&bytes).unwrap();
    assert_eq!(read.len(), 2);
    let item = read.get(&[7u8; 32], ItemType::Generic).unwrap();
    assert_eq!(item.data, vec![4, 5]);
    assert_eq!(item.compression, CachedCompression::Normal);
    assert_eq!(CachedCompression::from_u8(CachedCompression::Best.to_u8()), CachedCompression::Best);
    let sound = read.get(&sha256(b"original"), ItemType::Sound).unwrap();
    assert_eq!(sound.data, vec![9, 9]);
    assert!(read.get(&[7u8; 32], ItemType::Image).is_none());
}

#[test]
fn broken_cache_files_are_refused() {
    assert_eq!(Cache::from_bytes(&[]).err(), Some(CacheError::UnexpectedEof));
    assert_eq!(Cache::from_bytes(b"NOTACACHE-------").err(), Some(CacheError::InvalidData));
    assert_eq!(Cache::from_bytes(b"PACKOBF1").err(), Some(CacheError::UnexpectedEof));
    let mut one = b"PACKOBF1".to_vec();
    one.extend_from_slice(&1u64.to_le_bytes());
    one.extend_from_slice(&[0u8; 20]);
    assert_eq!(Cache::from_bytes(&one).err(), Some(CacheError::UnexpectedEof));
    let mut empty = b"PACKOBF1".to_vec();
    empty.extend_from_slice(&0u64.to_le_bytes());
    assert_eq!(Cache::from_bytes(&empty).unwrap().len(), 0);
}

#[test]
fn entries_of_other_versions_are_skipped() {
    let mut file = b"PACKOBF1".to_vec();
    file.extend_from_slice(&1u64.to_le_bytes());
    file.extend_from_slice(&[3u8; 32]);
    file.push(0);
    file.push(0);
    file.extend_from_slice(&2u16.to_le_bytes());
    file.extend_from_slice(&1u64.to_le_bytes());
    file.push(42);
    assert_eq!(Cache::from_bytes(&file).unwrap().len(), 0);
}

#[test]
fn compression_values_pack_into_a_byte() {
    for compression in [Compression::Fast, Compression::Normal] {
        for corrupt in [false, true] {
            let v = CompressionValue::new(compression, corrupt);
            assert_eq!(CompressionValue::from_u8(v.u8()), v);
        }
    }
    let best = CompressionValue::new(Compression::Normal, true);
    let plain = CompressionValue::new(Compression::Fast, false);
    assert!(plain.is_compatible_with(plain));
    assert!(!best.is_compatible_with(plain));
}

#[test]
fn failed_optimization_keeps_the_image() {
    assert_eq!(finish_png(vec![1, 2], Err("no".to_string()), true), vec![1, 2]);
    assert_eq!(finish_png(vec![1, 2], Ok(vec![5, 6, 7]), false), vec![5, 6, 7]);
}

#[test]
fn broken_sounds_are_kept_with_a_warning() {
    let mut sound = Sound::new("", Identifier::new("pack", "music/song"), vec![1, 2, 3, 4]);
    assert_eq!(sound.path(), "assets/pack/sounds/music/song.ogg");
    let message = sound.optimize(&mut None).unwrap();
    assert_eq!(message.level, LogLevel::Warning);
    assert!(message.message.starts_with(
        "Could not optimize sound 'assets/pack/sounds/music/song.ogg'. Skipping optimization. Error: "
    ));
    assert_eq!(sound.bytes, vec![1, 2, 3, 4]);
}

#[test]
fn texture_paths() {
    let t = AssetTexture::new("ov", Identifier::new("pack", "item/sword"), vec![]);
    assert_eq!(t.path(), "ov/assets/pack/textures/item/sword.png");
    let t = Texture::new(vec![1]);
    assert_eq!(t.bytes, vec![1]);
}

fn chunk(kind: &[u8; 4], data: &[u8]) -> Vec<u8> {
    let mut v = (data.len() as u32).to_be_bytes().to_vec();
    v.extend_from_slice(kind);
    v.extend_from_slice(data);
    let mut crc_input = kind.to_vec();
    crc_input.extend_from_slice(data);
    v.extend_from_slice(&libdeflater::crc32(&crc_input).to_be_bytes());
    v
}

fn small_png() -> Vec<u8> {
    let mut png = vec![137u8, 80, 78, 71, 13, 10, 26, 10];
    png.extend(chunk(b"IHDR", &[0, 0, 0, 2, 0, 0, 0, 2, 8, 6, 0, 0, 0]));
    let rows = [0u8, 255, 0, 0, 255, 0, 255, 0, 255, 0, 0, 0, 255, 255, 0, 0, 0, 255];
    let mut c = libdeflater::Compressor::new(libdeflater::CompressionLvl::default());
    let mut z = vec![0u8; c.zlib_compress_bound(rows.len())];
    let n = c.zlib_compress(&rows, &mut z).unwrap();
    z.truncate(n);
    png.extend(chunk(b"IDAT", &z));
    png.extend(chunk(b"IEND", &[]));
    png
}

#[test]
fn images_are_optimized_and_cached() {
    let png = small_png();
    let mut cache = Some(Cache::new());
    let (out, message) = Texture::new(png.clone()).optimize(&Options::fast(), &mut cache, "pack.png");
    assert!(message.is_none());
    assert_eq!(out[0..8], png[0..8]);
    assert!(out.ends_with(&[0x49, 0x45, 0x4E, 0x44, 0xAE, 0x42, 0x60, 0x82]));
    assert_eq!(cache.as_ref().unwrap().len(), 1);
    let (again, message) = Texture::new(png.clone()).optimize(&Options::fast(), &mut cache, "pack.png");
    assert_eq!(again, out);
    let message = message.unwrap();
    assert_eq!(message.level, LogLevel::Info);
    assert_eq!(message.message, "Image 'pack.png' was loaded from cache.");
    // a corrupted image is not compatible with the cached plain one
    let mut corrupt = Options::fast();
    corrupt.corrupt_png_files = true;
    let (c, _) = Texture::new(png.clone()).optimize(&corrupt, &mut None, "pack.png");
    assert_eq!(c.len(), out.len() - 4);
    assert!(c.ends_with(b"IEND"));
}

#[test]
fn broken_images_are_kept_with_a_message() {
    let (out, message) = Texture::new(vec![1, 2, 3]).optimize(&Options::fast(), &mut None, "x.png");
    assert_eq!(out, vec![1, 2, 3]);
    assert!(message.unwrap().message.starts_with("Could not optimize image 'x.png'. Skipping optimization. Error: "));
}
