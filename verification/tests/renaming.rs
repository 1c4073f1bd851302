use packobf::minecraft::builtin_files::BuiltinFiles;
use packobf::renamer::{generate_short_name, plan_renames, resolve_asset_path, rename_overlays};
use packobf::resource_pack::files::pack_mcmeta::{Overlay, OverlayEntry, PackMcmeta, PackVersion};
use packobf::resource_pack::identifier::{Identifier, ModelId, TextureId, TextureIdWithExt};
use packobf::resource_pack::mapping::{IdCategory, IdUsageCounter, Mapping};

fn id(ns: &str, path: &str) -> Identifier {
    Identifier::new(ns, path)
}

#[test]
fn short_names_are_base_38_least_significant_first() {
    assert_eq!(generate_short_name(0), "a");
    assert_eq!(generate_short_name(25), "z");
    assert_eq!(generate_short_name(26), "0");
    assert_eq!(generate_short_name(36), "_");
    assert_eq!(generate_short_name(37), "-");
    assert_eq!(generate_short_name(38), "ab");
    assert_eq!(generate_short_name(39), "bb");
    assert_eq!(generate_short_name(38 * 38), "aab");
}

#[test]
fn short_names_are_distinct() {
    let mut seen = std::collections::HashSet::new();
    for i in 0..5000 {
        assert!(seen.insert(generate_short_name(i)));
    }
}

#[test]
fn renames_by_usage_then_identifier() {
    let builtins = BuiltinFiles::new();
    let mut counter = IdUsageCounter::new();
    counter.increment_counter(&builtins, "foo:b".to_string(), IdCategory::Texture);
    counter.increment_counter(&builtins, "foo:b".to_string(), IdCategory::Texture);
    counter.increment_counter(&builtins, "foo:a".to_string(), IdCategory::Texture);
    assert_eq!(counter.get_usage_count("foo:b", IdCategory::Texture), 2);
    assert_eq!(counter.get_usage_count("foo:c", IdCategory::Texture), 0);
    let ids = vec![id("foo", "a"), id("foo", "c"), id("foo", "b"), id("foo", "a")];
    let mut mapping = Mapping::new();
    let out = plan_renames(&ids, IdCategory::Texture, &builtins, &counter, &mut mapping.texture_mappings);
    // order: foo:b (2 uses), foo:a (1 use), then both foo:a (same text), then foo:c
    assert_eq!(out[2], id("_", "a"));
    assert_eq!(out[0], id("_", "b"));
    assert_eq!(out[3], id("_", "b"));
    assert_eq!(out[1], id("_", "d"));
    assert_eq!(mapping.texture_mappings.get("foo:b").map(|s| s.as_str()), Some("_:a"));
    assert_eq!(mapping.texture_mappings.get("foo:a").map(|s| s.as_str()), Some("_:b"));
    assert_eq!(mapping.texture_mappings.get("foo:c").map(|s| s.as_str()), Some("_:d"));
}

#[test]
fn vanilla_files_keep_their_names() {
    let mut builtins = BuiltinFiles::new();
    builtins.models.insert("block/stone".to_string());
    let counter = IdUsageCounter::new();
    let ids = vec![id("minecraft", "block/stone"), id("minecraft", "block/custom"), id("other", "block/stone")];
    let mut mapping = Mapping::new();
    let out = plan_renames(&ids, IdCategory::Model, &builtins, &counter, &mut mapping.model_mappings);
    assert_eq!(out[0], id("minecraft", "block/stone"));
    assert_eq!(out[1], id("_", "a"));
    assert_eq!(out[2], id("_", "b"));
    assert!(mapping.model_mappings.get("block/stone").is_none());
}

#[test]
fn existing_names_are_reused() {
    let builtins = BuiltinFiles::new();
    let counter = IdUsageCounter::new();
    let mut mapping = Mapping::new();
    mapping.sound_mappings.insert("x:y".to_string(), "_:zz".to_string());
    let ids = vec![id("x", "y"), id("x", "z")];
    let out = plan_renames(&ids, IdCategory::Sound, &builtins, &counter, &mut mapping.sound_mappings);
    assert_eq!(out[0], id("_", "zz"));
    assert_eq!(out[1], id("_", "b"));
}

#[test]
fn references_follow_renamed_files_in_text() {
    let builtins = BuiltinFiles::new();
    let mut counter = IdUsageCounter::new();
    let model = ModelId::from_text("pack:item/sword", &mut counter, &builtins);
    let texture = TextureIdWithExt::from_text("pack:item/sword.png", &mut counter, &builtins);
    assert_eq!(texture.0, id("pack", "item/sword"));
    let mut mapping = Mapping::new();
    let models = plan_renames(&vec![model.0.clone()], IdCategory::Model, &builtins, &counter, &mut mapping.model_mappings);
    let textures = plan_renames(&vec![texture.0.clone()], IdCategory::Texture, &builtins, &counter, &mut mapping.texture_mappings);
    assert_eq!(model.to_string(&mapping), models[0].to_string());
    assert_eq!(texture.to_string(&mapping), format!("{}.png", textures[0].to_string()));
    let plain = TextureId::from_text("block/dirt", &mut counter, &builtins);
    assert_eq!(plain.to_string(&mapping), "block/dirt");
}

fn entry(dir: &str) -> OverlayEntry {
    OverlayEntry { directory: dir.to_string(), min_format: Some(PackVersion::Integer(1)), max_format: None, formats: None }
}

#[test]
fn overlays_are_renamed_by_position() {
    let mut mcmeta = PackMcmeta { overlays: Some(Overlay { entries: Some(vec![entry("old_one"), entry("second")]) }) };
    let mut mapping = Mapping::new();
    rename_overlays(&mut mcmeta, &mut mapping.overlay_mappings);
    let entries = mcmeta.overlays.as_ref().unwrap().entries.as_ref().unwrap();
    assert_eq!(entries[0].directory, "a");
    assert_eq!(entries[1].directory, "b");
    assert!(matches!(entries[1].min_format, Some(PackVersion::Integer(1))));
    assert_eq!(mapping.overlay_mappings.get("old_one").map(|s| s.as_str()), Some("a"));
    assert_eq!(resolve_asset_path("second/assets/minecraft/models/x.json", &mapping), "b/assets/minecraft/models/x.json");
    assert_eq!(resolve_asset_path("assets/minecraft/models/x.json", &mapping), "assets/minecraft/models/x.json");
    assert_eq!(resolve_asset_path("unknown/assets/x.json", &mapping), "unknown/assets/x.json");
    assert_eq!(resolve_asset_path("pack.mcmeta", &mapping), "pack.mcmeta");
}

#[test]
fn missing_overlays_are_left_alone() {
    let mut mcmeta = PackMcmeta { overlays: None };
    let mut mapping = Mapping::new();
    rename_overlays(&mut mcmeta, &mut mapping.overlay_mappings);
    assert!(mcmeta.overlays.is_none());
    assert!(mapping.overlay_mappings.is_empty());
}
