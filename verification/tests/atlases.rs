use packobf::minecraft::builtin_files::{get_atlas, AtlasType, BuiltinFiles};
use packobf::renamer::{plan_texture_renames, rebuild_atlas, texture_in_atlas};
use packobf::resource_pack::files::asset_texture::AssetTexture;
use packobf::resource_pack::files::atlas::{Atlas, AtlasSource, FilterPattern};
use packobf::resource_pack::identifier::Identifier;
use packobf::resource_pack::mapping::{IdCategory, IdUsageCounter, Mapping};

fn id(ns: &str, path: &str) -> Identifier {
    Identifier::new(ns, path)
}

fn dir(source: &str, prefix: &str) -> AtlasSource {
    AtlasSource::Directory { source: source.to_string(), prefix: prefix.to_string() }
}

#[test]
fn atlas_names_read_back() {
    assert_eq!(AtlasType::Blocks.name(), "blocks");
    assert_eq!(AtlasType::GUI.name(), "gui");
    assert_eq!(AtlasType::ShulkerBoxes.name(), "shulker_boxes");
    assert_eq!(AtlasType::from_name("decorated_pot"), Some(AtlasType::DecoratedPot));
    assert_eq!(AtlasType::from_name("Blocks"), None);
    for t in [AtlasType::ArmorTrims, AtlasType::Items, AtlasType::Signs, AtlasType::MapDecorations] {
        assert_eq!(AtlasType::from_name(&t.name()), Some(t));
    }
}

#[test]
fn vanilla_paths_belong_to_atlases() {
    assert_eq!(get_atlas("block/stone"), Some(AtlasType::Blocks));
    assert_eq!(get_atlas("entity/conduit/base"), Some(AtlasType::Blocks));
    assert_eq!(get_atlas("item/apple"), Some(AtlasType::Items));
    assert_eq!(get_atlas("entity/zombie"), None);
}

#[test]
fn atlas_sources_name_their_sprites() {
    let atlas = Atlas {
        overlay: String::new(),
        atlas_type: AtlasType::Blocks,
        sources: vec![
            AtlasSource::Single { resource: id("pack", "custom/gem"), sprite: Some(id("pack", "gem")) },
            dir("custom", "c/"),
            AtlasSource::Other(7),
        ],
    };
    assert_eq!(atlas.path(), "assets/minecraft/atlases/blocks.json");
    assert_eq!(atlas.get_identifier(&id("pack", "gem")), Some(id("pack", "custom/gem")));
    assert_eq!(atlas.get_identifier(&id("pack", "c/ore")), Some(id("pack", "customore")));
    assert_eq!(atlas.get_identifier(&id("pack", "other")), None);
    let in_overlay = Atlas { overlay: "ov".to_string(), atlas_type: AtlasType::Items, sources: vec![] };
    assert_eq!(in_overlay.path(), "ov/assets/minecraft/atlases/items.json");
}

#[test]
fn filters_remove_sprites() {
    let atlas = Atlas {
        overlay: String::new(),
        atlas_type: AtlasType::Blocks,
        sources: vec![
            dir("block", "block/"),
            AtlasSource::Filter { pattern: FilterPattern { namespace: Some("^min".to_string()), path: Some("glass$".to_string()) } },
        ],
    };
    assert_eq!(atlas.get_identifier(&id("minecraft", "block/glass")), None);
    assert_eq!(atlas.get_identifier(&id("minecraft", "block/stone")), Some(id("minecraft", "blockstone")));
    assert_eq!(atlas.get_identifier(&id("other", "block/glass")), Some(id("other", "blockglass")));
    let broken = Atlas {
        overlay: String::new(),
        atlas_type: AtlasType::Blocks,
        sources: vec![dir("a", ""), AtlasSource::Filter { pattern: FilterPattern { namespace: Some("(".to_string()), path: None } }],
    };
    // a pattern that does not compile matches nothing
    assert_eq!(broken.get_identifier(&id("x", "y")), Some(id("x", "ay")));
}

#[test]
fn rebuilt_atlases_point_at_renamed_folders() {
    let mut atlases = vec![
        Atlas { overlay: String::new(), atlas_type: AtlasType::Blocks, sources: vec![dir("block", "block/"), AtlasSource::Other(3)] },
        Atlas { overlay: "ov".to_string(), atlas_type: AtlasType::Items, sources: vec![] },
        Atlas { overlay: String::new(), atlas_type: AtlasType::Signs, sources: vec![dir("x", "y")] },
    ];
    rebuild_atlas(&mut atlases);
    assert_eq!(atlases.len(), 4);
    assert_eq!(atlases[0].sources.len(), 2);
    assert!(matches!(atlases[0].sources[0], AtlasSource::Other(3)));
    assert!(matches!(&atlases[0].sources[1], AtlasSource::Directory { source, prefix } if source == "b" && prefix == "b/"));
    assert!(matches!(&atlases[1].sources[0], AtlasSource::Directory { source, prefix } if source == "i" && prefix == "i/"));
    // other atlases keep their sources
    assert_eq!(atlases[2].sources.len(), 1);
    assert!(matches!(&atlases[2].sources[0], AtlasSource::Directory { source, prefix } if source == "x" && prefix == "y"));
    assert_eq!(atlases[3].atlas_type, AtlasType::Items);
    assert_eq!(atlases[3].overlay, "");
    assert_eq!(atlases[3].sources.len(), 1);
}

#[test]
fn textures_go_to_their_atlas_folders() {
    let builtins = BuiltinFiles::new();
    let mut counter = IdUsageCounter::new();
    counter.increment_counter(&builtins, "pack:item/sword".to_string(), IdCategory::Texture);
    let atlases = vec![Atlas {
        overlay: String::new(),
        atlas_type: AtlasType::Items,
        sources: vec![dir("custom/", "gem/")],
    }];
    let textures = vec![
        AssetTexture::new("", id("pack", "item/sword"), vec![]),
        AssetTexture::new("", id("pack", "block/ore"), vec![]),
        AssetTexture::new("", id("pack", "font/glyphs"), vec![]),
        AssetTexture::new("", id("pack", "entity/thing"), vec![]),
        AssetTexture::new("", id("pack", "item/axe"), vec![]),
        AssetTexture::new("", id("pack", "gem/ruby"), vec![]),
    ];
    assert!(texture_in_atlas(&atlases, &textures[5], AtlasType::Items));
    assert!(!texture_in_atlas(&atlases, &textures[3], AtlasType::Items));
    let fonts = vec!["pack:font/glyphs".to_string()];
    let mut mapping = Mapping::new();
    let out = plan_texture_renames(&textures, &atlases, &fonts, &builtins, &counter, &mut mapping.texture_mappings);
    // items folder: item/sword (1 use) first, then by identifier: gem/ruby, item/axe
    assert_eq!(out.identifiers[0], id("_", "i/a"));
    assert_eq!(out.identifiers[5], id("_", "i/b"));
    assert_eq!(out.identifiers[4], id("_", "i/c"));
    assert_eq!(out.identifiers[1], id("_", "b/a"));
    assert_eq!(out.identifiers[2], id("_", "a"));
    assert_eq!(out.identifiers[3], id("pack", "entity/thing"));
    assert!(out.in_both_atlases.is_empty());
    assert_eq!(mapping.texture_mappings.get("pack:item/axe").map(|s| s.as_str()), Some("_:i/c"));
    assert!(mapping.texture_mappings.get("pack:entity/thing").is_none());
}

#[test]
fn textures_in_both_atlases_go_to_blocks() {
    let builtins = BuiltinFiles::new();
    let counter = IdUsageCounter::new();
    let atlases = vec![Atlas { overlay: String::new(), atlas_type: AtlasType::Items, sources: vec![dir("block", "block/")] }];
    let textures = vec![AssetTexture::new("", id("pack", "block/both"), vec![])];
    let mut mapping = Mapping::new();
    let out = plan_texture_renames(&textures, &atlases, &vec![], &builtins, &counter, &mut mapping.texture_mappings);
    assert_eq!(out.identifiers[0], id("_", "b/a"));
    assert_eq!(out.in_both_atlases, vec![0]);
}
