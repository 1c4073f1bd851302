use packobf::file_parser::{classify, FileKind};
use packobf::json;
use packobf::minecraft::builtin_files::{is_in_models, AtlasType, BuiltinFiles};
use packobf::options::{Compression, Options, Preset, ShaderCompression};
use packobf::profiler::{Profiler, ScopeTimer};
use packobf::resource_pack::files::blockstate::{BlockModel, Blockstate, VariantValue};
use packobf::resource_pack::files::font::{default_ascent, default_height, is_empty_or_older_than_26_1};
use packobf::resource_pack::files::pack_mcmeta::PackMcmeta;
use packobf::resource_pack::files::resource_pack_file::ResourcePackFile;
use packobf::resource_pack::files::shader::Shader;
use packobf::resource_pack::identifier::{Identifier, ModelId};
use packobf::resource_pack::mapping::{IdCategory, IdUsageCounter, Mapping};
use packobf::usage_checker::{broken_references, unused_files};
use packobf::version::{self, MinecraftVersion};
use packobf::{LogFilter, LogLevel};

#[test]
fn files_are_classified_by_name() {
    assert_eq!(classify("assets/minecraft/models/block/a.json"), FileKind::Model);
    assert_eq!(classify("ov/assets/ns/blockstates/a.json"), FileKind::Blockstate);
    assert_eq!(classify("assets/ns/items/a.json"), FileKind::Item);
    assert_eq!(classify("assets/ns/font/default.json"), FileKind::Font);
    assert_eq!(classify("assets/minecraft/atlases/blocks.json"), FileKind::Atlas(AtlasType::Blocks));
    assert_eq!(classify("assets/minecraft/atlases/whatever.json"), FileKind::UnknownAtlas);
    assert_eq!(classify("assets/ns/sounds.json"), FileKind::SoundDefinitions);
    assert_eq!(classify("assets/ns/lang/en_us.json"), FileKind::JsonFile);
    assert_eq!(classify("assets/ns/textures/a.png.mcmeta"), FileKind::JsonFile);
    assert_eq!(classify("pack.mcmeta"), FileKind::JsonFile);
    assert_eq!(classify("assets/ns/textures/block/a.png"), FileKind::Texture);
    assert_eq!(classify("pack.png"), FileKind::UnknownTexture);
    assert_eq!(classify("assets/minecraft/shaders/core/x.vsh"), FileKind::Shader);
    assert_eq!(classify("assets/minecraft/shaders/include/x.glsl"), FileKind::Shader);
    assert_eq!(classify("assets/ns/sounds/a.ogg"), FileKind::Sound);
    assert_eq!(classify("assets/ns/music/a.ogg"), FileKind::Unknown);
    assert_eq!(classify("README.txt"), FileKind::Unknown);
}

#[test]
fn presets_set_the_options() {
    let fast = Options::fast();
    assert_eq!(fast.compression, Compression::Fast);
    assert!(!fast.rename_files);
    let best = Options::from_preset(Preset::Best);
    assert_eq!(best.compression, Compression::Normal);
    assert!(best.rename_files && best.block_unzipping && best.corrupt_png_files);
    assert_eq!(best.shader_compression, ShaderCompression::Disabled);
    assert_eq!(Options::normal(), Options::from_preset(Preset::Normal));
    assert_eq!(Options::best(), best);
    assert_eq!(Compression::from_u8(Compression::Normal.to_u8()), Compression::Normal);
}

#[test]
fn versions_compare_by_pack_format() {
    assert_eq!(MinecraftVersion::V1_21_4.pack_format(), 46);
    assert!(!version::is_older_than_1_21_4(0));
    assert!(version::is_older_than_1_21_4(42));
    assert!(!version::is_older_than_1_21_4(46));
    assert!(version::is_older_than_26_1(75));
    assert!(version::is_newer_than_26_1(88));
    assert!(!version::is_newer_than_26_1(84));
    assert!(!version::is_newer_than_26_1(0));
}

#[test]
fn json_defaults_and_omissions() {
    assert_eq!(json::default_underscore(), "_");
    assert!(json::is_underscore(&"_".to_string()));
    assert_eq!(json::default_weight(), 1);
    assert!(json::is_default_weight(&1));
    assert!(json::is_zero(&0));
    assert!(!json::is_one_u32(&2));
    assert!(json::is_16_u32(&16));
    assert!(json::is_none_or_older_than_1_21_11::<u8>(&None, 0));
    assert!(json::is_none_or_older_than_1_21_11(&Some(1), 46));
    assert!(!json::is_none_or_older_than_1_21_11(&Some(1), 0));
    assert!(json::is_false_or_older_than_1_21_6(&false, 0));
    assert!(json::is_false_or_older_than_1_21_6(&true, 46));
    assert!(!json::is_false_or_older_than_1_21_6(&true, 63));
    assert_eq!(default_ascent(), 7);
    assert_eq!(default_height(), 8);
    assert!(is_empty_or_older_than_26_1::<u8>(&[], 0));
    assert!(!is_empty_or_older_than_26_1(&[1u8], 88));
}

#[test]
fn log_filters_show_serious_enough_messages() {
    assert!(LogFilter::Warning.is_valid(&LogLevel::Error));
    assert!(!LogFilter::Warning.is_valid(&LogLevel::Info));
    assert!(!LogFilter::Silent.is_valid(&LogLevel::Error));
    assert!(LogFilter::Info.is_valid(&LogLevel::Info));
    assert_eq!(LogLevel::Error.to_u8(), 2);
}

#[test]
fn unused_and_broken_references() {
    let mut builtins = BuiltinFiles::new();
    builtins.textures.insert("block/stone".to_string());
    assert!(!is_in_models(&builtins, "block/stone"));
    let mut counter = IdUsageCounter::new();
    counter.increment_counter(&builtins, "pack:a".to_string(), IdCategory::Texture);
    counter.increment_counter(&builtins, "block/stone".to_string(), IdCategory::Texture);
    let in_pack = vec!["pack:a".to_string(), "pack:b".to_string()];
    assert_eq!(unused_files(&in_pack, &counter, IdCategory::Texture), vec![1]);
    let referenced = vec!["pack:a".to_string(), "block/stone".to_string(), "pack:missing".to_string()];
    assert_eq!(broken_references(&referenced, &in_pack, &builtins, IdCategory::Texture), vec![2]);
}

#[test]
fn mappings_rename_references() {
    let mut mapping = Mapping::new();
    mapping.model_mappings.insert("pack:m".to_string(), "_:a".to_string());
    assert_eq!(mapping.apply_mapping("pack:m", IdCategory::Model), "_:a");
    assert_eq!(mapping.apply_mapping("pack:m", IdCategory::Texture), "pack:m");
    let model = ModelId(Identifier::parse("pack:m"));
    assert_eq!(model.to_string(&mapping), "_:a");
    assert_eq!(Identifier::parse("block/x"), Identifier::new("minecraft", "block/x"));
    assert_eq!(Identifier::new("minecraft", "block/x").to_string(), "block/x");
    assert_eq!(Identifier::new("a", "b:c").to_string(), "a:b:c");
    assert_eq!(Identifier::parse("a:b:c"), Identifier::new("a", "b:c"));
}

#[test]
fn shaders_keep_their_source_when_minifying_does_not_help() {
    let shader = Shader::new("assets/minecraft/shaders/core/a.vsh", "void main() {}");
    let mut options = Options::fast();
    assert_eq!(Shader::minify_mode(&options), None);
    options.shader_compression = ShaderCompression::MinifyAndObfuscate;
    assert_eq!(Shader::minify_mode(&options), Some(true));
    assert_eq!(shader.finish(Ok("void main(){}".to_string())).0, "void main(){}");
    assert_eq!(shader.finish(Ok(String::new())).0, "void main() {}");
    let (kept, message) = shader.finish(Err("bad token".to_string()));
    assert_eq!(kept, "void main() {}");
    assert_eq!(
        message.unwrap().message,
        "Could not minify shader 'assets/minecraft/shaders/core/a.vsh'. Skipping optimization. Error: bad token"
    );
}

#[test]
fn file_paths() {
    let b = Blockstate {
        overlay: String::new(),
        identifier: Identifier::new("pack", "ore"),
        variants: Some(vec![(
            "".to_string(),
            VariantValue::Single(BlockModel {
                model: ModelId(Identifier::new("pack", "block/ore")),
                x: 0,
                y: 90,
                z: 0,
                uvlock: false,
                weight: 1,
            }),
        )]),
        multipart: None,
    };
    assert_eq!(b.path(), "assets/pack/blockstates/ore.json");
    assert_eq!(PackMcmeta { overlays: None }.path(), "pack.mcmeta");
    let f = ResourcePackFile::from_text("a.txt", "hi");
    assert_eq!(f.bytes, b"hi".to_vec());
}

#[test]
fn profiler_counts_runs() {
    let mut p = Profiler::new();
    p.record("parse", 10);
    p.record("parse", 5);
    p.record("zip", 1);
    let entries = p.entries();
    assert_eq!(entries.len(), 2);
    assert_eq!(entries[0].0, "parse");
    assert_eq!((entries[0].1.total_ns, entries[0].1.calls), (15, 2));
    assert_eq!(entries[1].0, "zip");
    let timer = ScopeTimer::new("zip");
    timer.finish(&mut p);
    assert_eq!(p.entries()[1].1.calls, 2);
}
