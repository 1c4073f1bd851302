use packobf::overlay_remover::remove_pack_overlays;
use packobf::resource_pack::files::pack_mcmeta::{FormatRange, Overlay, OverlayEntry, PackMcmeta};
use packobf::pipeline::{stages, Stage};
use packobf::version::MinecraftVersion;
use packobf::cache::Cache;
use packobf::file_parser::{file_fallback, FileKind, ReadFailure};
use packobf::minecraft::builtin_files::{AtlasType, BuiltinFiles};
use packobf::optimized_zip_writer::{write_archive, OptimizedZipWriter};
use packobf::options::Options;
use packobf::overlay_remover::{merged_files, OverlayFile};
use packobf::png::crc::modify_png_crcs;
use packobf::renamer::{plan_renames, texture_companion_moves};
use packobf::resource_pack::files::sound::Sound;
use packobf::resource_pack::files::texture::Texture;
use packobf::resource_pack::identifier::Identifier;
use packobf::resource_pack::mapping::{IdCategory, IdUsageCounter, Mapping};
use packobf::usage_checker::usage_warnings;
use packobf::zip_reader::read_zip_entries;
use packobf::LogLevel;
use std::io::Write;

fn le16(b: &[u8], at: usize) -> usize {
    u16::from_le_bytes([b[at], b[at + 1]]) as usize
}

fn le32(b: &[u8], at: usize) -> usize {
    u32::from_le_bytes([b[at], b[at + 1], b[at + 2], b[at + 3]]) as usize
}

/// The names of the central directory entries, in order.
fn entry_names(zip: &[u8]) -> Vec<Vec<u8>> {
    let end = zip.len() - 22;
    let size = le32(zip, end + 12);
    let mut at = le32(zip, end + 16);
    let stop = at + size;
    let mut names = Vec::new();
    while at < stop {
        let n = le16(zip, at + 28);
        names.push(zip[at + 46..at + 46 + n].to_vec());
        at += 46 + n;
    }
    names
}

#[test]
fn references_to_pack_models_and_sounds_are_counted() {
    let mut builtins = BuiltinFiles::new();
    builtins.models.insert("minecraft:block/stone".to_string());
    let mut counter = IdUsageCounter::new();
    counter.increment_counter(&builtins, "pack:a".to_string(), IdCategory::Model);
    counter.increment_counter(&builtins, "pack:a".to_string(), IdCategory::Model);
    counter.increment_counter(&builtins, "minecraft:block/stone".to_string(), IdCategory::Model);
    counter.increment_counter(&builtins, "pack:s".to_string(), IdCategory::Sound);
    assert_eq!(counter.get_usage_count("pack:a", IdCategory::Model), 2);
    assert_eq!(counter.get_usage_count("minecraft:block/stone", IdCategory::Model), 0);
    assert_eq!(counter.get_usage_count("pack:s", IdCategory::Sound), 1);
}

#[test]
fn most_referenced_model_gets_the_shortest_name() {
    let builtins = BuiltinFiles::new();
    let mut counter = IdUsageCounter::new();
    let ids: Vec<Identifier> = (0..40).map(|i| Identifier::new("pack", &format!("m{:02}", i))).collect();
    for _ in 0..3 {
        counter.increment_counter(&builtins, "pack:m39".to_string(), IdCategory::Model);
    }
    let mut mapping = Mapping::new();
    let new_ids = plan_renames(&ids, IdCategory::Model, &builtins, &counter, &mut mapping.model_mappings);
    assert_eq!(new_ids[39].namespace, "_");
    assert_eq!(new_ids[39].path, "a");
    assert!(new_ids.iter().all(|id| id.path.len() >= new_ids[39].path.len()));
}

#[test]
fn unreadable_files_fall_back_with_their_error() {
    let m = file_fallback("a.json", FileKind::Model, Some(&ReadFailure::NotUtf8("bad".to_string()))).unwrap();
    assert_eq!(m.level, LogLevel::Error);
    assert_eq!(m.message, "Invalid UTF-8 in 'a.json': bad");
    let m = file_fallback("x/atlases/foo.json", FileKind::UnknownAtlas, None).unwrap();
    assert_eq!(m.message, "Unknown atlas type 'x/atlases/foo.json'");
    let m = file_fallback("b.json", FileKind::JsonFile, Some(&ReadFailure::Malformed("eof".to_string()))).unwrap();
    assert_eq!(
        m.message,
        "Could not parse 'b.json'. This is most likely not a packobf issue but a json file that is malformed. Treating it as an unknown file. Error: eof"
    );
    assert!(file_fallback("c.json", FileKind::Atlas(AtlasType::Blocks), None).is_none());
}

#[test]
fn usage_warnings_name_unused_files_and_broken_references() {
    let builtins = BuiltinFiles::new();
    let mut counter = IdUsageCounter::new();
    counter.increment_counter(&builtins, "pack:used".to_string(), IdCategory::Model);
    let files = vec![
        ("assets/pack/models/used.json".to_string(), "pack:used".to_string()),
        ("assets/pack/models/lonely.json".to_string(), "pack:lonely".to_string()),
    ];
    let referenced = vec!["pack:used".to_string(), "pack:missing".to_string()];
    let w = usage_warnings("Model", &files, &referenced, &counter, &builtins, IdCategory::Model);
    let texts: Vec<&str> = w.iter().map(|m| m.message.as_str()).collect();
    assert_eq!(
        texts,
        vec![
            "Unused Model: pack:lonely (File: assets/pack/models/lonely.json)",
            "Broken Model Reference: 'pack:missing' is referenced but not found in the pack",
        ]
    );
    assert!(w.iter().all(|m| m.level == LogLevel::Warning));
}

fn file(key: &str, overlay: &str, promoted: &str) -> OverlayFile {
    OverlayFile { key: key.to_string(), overlay: overlay.to_string(), promoted_key: promoted.to_string() }
}

#[test]
fn merging_overlays_replaces_in_order_and_drops_inactive_ones() {
    let files = vec![
        file("a", "", "a"),
        file("b", "", "b"),
        file("o1/a", "o1", "a"),
        file("o2/a", "o2", "a"),
        file("o3/b", "o3", "b"),
    ];
    let declared = vec!["o1".to_string(), "o2".to_string(), "o3".to_string()];
    let active = vec!["o1".to_string(), "o2".to_string()];
    let (kept, changed) = merged_files(&files, &declared, &active);
    // o2 comes after o1, so its file wins; o3 is not active and goes
    assert_eq!(kept, vec![("b".to_string(), 1), ("a".to_string(), 3)]);
    assert_eq!(changed, 3);
}

#[test]
fn texture_metadata_follows_renamed_textures() {
    let moves = vec![
        ("assets/p/textures/x.png".to_string(), "assets/_/textures/b/a.png".to_string()),
        ("assets/p/textures/y.png".to_string(), "assets/p/textures/y.png".to_string()),
    ];
    assert_eq!(
        texture_companion_moves(&moves),
        vec![("assets/p/textures/x.png.mcmeta".to_string(), "assets/_/textures/b/a.png.mcmeta".to_string())]
    );
}

#[test]
fn a_missing_cache_file_gives_an_empty_cache() {
    assert_eq!(Cache::from_file_contents(None).unwrap().len(), 0);
    assert!(Cache::from_file_contents(Some(b"NOTACACHE-------")).is_err());
}

#[test]
fn blocked_archives_start_with_the_nul_entry() {
    let mut options = Options::normal();
    options.block_unzipping = true;
    let files = vec![("a.txt".to_string(), b"hello".to_vec()), ("b.txt".to_string(), b"hello".to_vec())];
    let zip = write_archive(&files, &options, &mut None);
    assert_eq!(entry_names(&zip), vec![b"assets\0".to_vec(), b"a.txt".to_vec(), b"b.txt".to_vec()]);
    options.block_unzipping = false;
    let zip = write_archive(&files, &options, &mut None);
    assert_eq!(entry_names(&zip), vec![b"a.txt".to_vec(), b"b.txt".to_vec()]);
    let mut w = OptimizedZipWriter::new();
    assert!(w.add_file("c", b"x", &options, &mut None).is_ok());
}

#[test]
fn zip_archives_are_read_without_their_directories() {
    let mut buf = std::io::Cursor::new(Vec::new());
    {
        let mut w = zip::ZipWriter::new(&mut buf);
        let o = zip::write::SimpleFileOptions::default();
        w.add_directory("assets/", o).unwrap();
        w.start_file("assets/a.txt", o).unwrap();
        w.write_all(b"one").unwrap();
        w.start_file("pack.mcmeta", o).unwrap();
        w.write_all(b"{}").unwrap();
        w.finish().unwrap();
    }
    let entries = read_zip_entries(buf.into_inner()).unwrap();
    assert_eq!(
        entries,
        vec![("assets/a.txt".to_string(), b"one".to_vec()), ("pack.mcmeta".to_string(), b"{}".to_vec())]
    );
    assert!(read_zip_entries(b"not a zip".to_vec()).is_none());
}

#[test]
fn unreadable_sounds_are_kept_with_a_warning() {
    let mut s = Sound::new("", Identifier::new("minecraft", "a"), vec![1, 2, 3]);
    let message = s.optimize(&mut None).unwrap();
    assert_eq!(s.bytes, vec![1, 2, 3]);
    assert_eq!(message.level, LogLevel::Warning);
    assert!(message.message.starts_with("Could not optimize sound 'assets/minecraft/sounds/a.ogg'"));
}

#[test]
fn unreadable_images_are_kept_with_a_message() {
    let (bytes, message) = Texture::new(vec![1, 2, 3]).optimize(&Options::fast(), &mut None, "x.png");
    assert_eq!(bytes, vec![1, 2, 3]);
    let message = message.unwrap();
    assert_eq!(message.level, LogLevel::Info);
    assert!(message.message.starts_with("Could not optimize image 'x.png'"));
}

#[test]
fn png_signature_errors_say_so() {
    assert_eq!(modify_png_crcs(b"nope"), Err("Invalid PNG signature"));
}

#[test]
fn keys_are_put_in_sorted_order() {
    let keys: Vec<String> = ["b", "a", "ab", "B", "a"].iter().map(|s| s.to_string()).collect();
    let order = packobf::text::sorted_order(&keys);
    let sorted: Vec<&str> = order.iter().map(|&i| keys[i].as_str()).collect();
    assert_eq!(sorted, vec!["B", "a", "a", "ab", "b"]);
    let mut seen = order.clone();
    seen.sort();
    assert_eq!(seen, vec![0, 1, 2, 3, 4]);
}

#[test]
fn stages_follow_the_options() {
    let mut options = Options::normal();
    options.rename_files = false;
    options.target_version = None;
    assert_eq!(stages(&options), vec![Stage::CheckUsage, Stage::WriteArchive]);
    options.rename_files = true;
    options.target_version = Some(MinecraftVersion::V1_21_2);
    assert_eq!(
        stages(&options),
        vec![Stage::RemoveOverlays, Stage::DropItems, Stage::CheckUsage, Stage::RenameFiles, Stage::WriteArchive]
    );
    options.target_version = Some(MinecraftVersion::V1_21_4);
    assert_eq!(stages(&options), vec![Stage::RemoveOverlays, Stage::CheckUsage, Stage::RenameFiles, Stage::WriteArchive]);
}

#[test]
fn an_empty_blocked_pack_gives_the_exact_archive() {
    let mut empty_zip = vec![0x50, 0x4B, 0x05, 0x06];
    empty_zip.extend([0u8; 18]);
    let files = read_zip_entries(empty_zip).unwrap();
    assert!(files.is_empty());
    let mut options = Options::fast();
    options.block_unzipping = true;
    let zip = write_archive(&files, &options, &mut None);
    let mut expected = vec![0x50, 0x4B, 0x03, 0x04];
    expected.extend([0u8; 26]);
    expected.extend([0x50, 0x4B, 0x01, 0x02]);
    expected.extend([0u8; 24]);
    expected.extend([0x07, 0x00]);
    expected.extend([0u8; 16]);
    expected.extend(b"assets\0");
    expected.extend([0x50, 0x4B, 0x05, 0x06, 0xFF, 0xFF, 0, 0, 0, 0, 0, 0, 0x35, 0, 0, 0, 0x1E, 0, 0, 0, 0, 0]);
    assert_eq!(zip.len(), 105);
    assert_eq!(zip, expected);
}

#[test]
fn pack_overlays_merge_in_order() {
    let entry = |dir: &str, formats: FormatRange| OverlayEntry {
        directory: dir.to_string(),
        min_format: None,
        max_format: None,
        formats: Some(formats),
    };
    let mut mcmeta = PackMcmeta {
        overlays: Some(Overlay {
            entries: Some(vec![
                entry("o1", FormatRange::Int(40)),
                entry("o2", FormatRange::List([30, 50])),
                entry("o3", FormatRange::Int(99)),
            ]),
        }),
    };
    let keys: Vec<String> = ["a.json", "o1/a.json", "o2/a.json", "o3/b.json", "o4/c.json"]
        .iter()
        .map(|s| s.to_string())
        .collect();
    let (files, kept, changed) = remove_pack_overlays(&mut mcmeta, 40, &keys);
    assert!(mcmeta.overlays.is_none());
    assert_eq!(files[3].overlay, "o3");
    assert_eq!(files[4].overlay, "");
    assert_eq!(kept, vec![("a.json".to_string(), 2), ("o4/c.json".to_string(), 4)]);
    assert_eq!(changed, 3);
    let mut plain = PackMcmeta { overlays: None };
    let (_, kept, changed) = remove_pack_overlays(&mut plain, 40, &keys);
    assert_eq!(kept.len(), 5);
    assert_eq!(changed, 0);
}

fn png_chunk(kind: &[u8; 4], data: &[u8]) -> Vec<u8> {
    let mut c = (data.len() as u32).to_be_bytes().to_vec();
    c.extend_from_slice(kind);
    c.extend_from_slice(data);
    c.extend_from_slice(&[9, 9, 9, 9]);
    c
}

#[test]
fn corrupted_pngs_lose_the_image_data_checksum() {
    let mut png = vec![137, 80, 78, 71, 13, 10, 26, 10];
    png.extend(png_chunk(b"IDAT", &[1, 2]));
    png.extend(png_chunk(b"IDAT", &[3, 4, 5, 6, 7, 8]));
    png.extend(png_chunk(b"IEND", &[]));
    let out = packobf::png::crc::zero_idat_checksum(&png);
    assert_eq!(out.len(), png.len());
    assert_eq!(out[8..22], png[8..22]);
    assert_eq!(out[22..32], [0, 0, 0, 6, b'I', b'D', b'A', b'T', 3, 4]);
    assert_eq!(out[32..36], [0, 0, 0, 0]);
    assert_eq!(out[36..], png[36..]);
    assert_eq!(packobf::png::crc::zero_idat_checksum(b"short"), b"short".to_vec());
}

#[test]
fn adler32_of_wikipedia() {
    assert_eq!(packobf::deflate::adler32(b"Wikipedia"), 0x11E60398);
    assert_eq!(packobf::deflate::adler32(&[]), 1);
}
