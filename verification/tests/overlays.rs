use packobf::overlay_remover::{
    entry_matches, overlay_from_path, remove_overlays, resolve_overlay_files, strip_overlay, version, OverlayFile,
};
use packobf::resource_pack::files::pack_mcmeta::{FormatRange, Overlay, OverlayEntry, PackMcmeta, PackVersion};

fn entry(dir: &str) -> OverlayEntry {
    OverlayEntry { directory: dir.to_string(), min_format: None, max_format: None, formats: None }
}

#[test]
fn versions_read_as_major_and_minor() {
    assert_eq!(version(&PackVersion::Integer(42)), (42, 0));
    assert_eq!(version(&PackVersion::Decimal([63, 2])), (63, 2));
}

#[test]
fn entries_match_their_formats() {
    let mut e = entry("o");
    assert!(entry_matches(&e, 10));
    e.formats = Some(FormatRange::Int(46));
    assert!(entry_matches(&e, 46));
    assert!(!entry_matches(&e, 47));
    e.formats = Some(FormatRange::List([40, 50]));
    assert!(entry_matches(&e, 40));
    assert!(entry_matches(&e, 50));
    assert!(!entry_matches(&e, 51));
    e.formats = Some(FormatRange::Object {
        min_inclusive: PackVersion::Decimal([46, 1]),
        max_inclusive: PackVersion::Integer(55),
    });
    // (46, 0) is below (46, 1)
    assert!(!entry_matches(&e, 46));
    assert!(entry_matches(&e, 47));
    assert!(entry_matches(&e, 55));
    let mut f = entry("p");
    f.min_format = Some(PackVersion::Integer(30));
    f.max_format = Some(PackVersion::Decimal([40, 5]));
    assert!(!entry_matches(&f, 29));
    assert!(entry_matches(&f, 30));
    assert!(entry_matches(&f, 40));
    assert!(!entry_matches(&f, 41));
}

#[test]
fn overlay_paths_are_stripped() {
    assert_eq!(strip_overlay("ov/assets/minecraft/x.json"), "assets/minecraft/x.json");
    assert_eq!(strip_overlay("pack.png"), "pack.png");
    let declared = vec!["ov".to_string(), "ov2".to_string()];
    assert_eq!(overlay_from_path("ov2/assets/a.json", &declared), "ov2");
    assert_eq!(overlay_from_path("ov/assets/a.json", &declared), "ov");
    assert_eq!(overlay_from_path("ovx/assets/a.json", &declared), "");
    assert_eq!(overlay_from_path("assets/a.json", &declared), "");
}

#[test]
fn removing_overlays_empties_the_declaration() {
    let mut a = entry("new");
    a.formats = Some(FormatRange::Int(55));
    let mut b = entry("old");
    b.formats = Some(FormatRange::List([1, 40]));
    let mut mcmeta = PackMcmeta { overlays: Some(Overlay { entries: Some(vec![a, b]) }) };
    let plan = remove_overlays(&mut mcmeta, 55).unwrap();
    assert!(mcmeta.overlays.is_none());
    assert_eq!(plan.declared, vec!["new".to_string(), "old".to_string()]);
    assert_eq!(plan.active, vec!["new".to_string()]);
    let mut none = PackMcmeta { overlays: Some(Overlay { entries: Some(vec![]) }) };
    assert!(remove_overlays(&mut none, 55).is_none());
    assert!(none.overlays.is_none());
    let mut missing = PackMcmeta { overlays: None };
    assert!(remove_overlays(&mut missing, 55).is_none());
}

fn file(key: &str, overlay: &str, promoted: &str) -> OverlayFile {
    OverlayFile { key: key.to_string(), overlay: overlay.to_string(), promoted_key: promoted.to_string() }
}

#[test]
fn active_overlays_replace_base_files() {
    let files = vec![
        file("assets/a.json", "", "assets/a.json"),
        file("assets/b.json", "", "assets/b.json"),
        file("new/assets/a.json", "new", "assets/a.json"),
        file("old/assets/b.json", "old", "assets/b.json"),
        file("old/assets/c.json", "old", "assets/c.json"),
        file("later/assets/a.json", "later", "assets/a.json"),
    ];
    let declared = vec!["new".to_string(), "old".to_string(), "later".to_string()];
    let active = vec!["new".to_string(), "later".to_string()];
    let (map, changed) = resolve_overlay_files(&files, &declared, &active);
    assert_eq!(changed, 4);
    assert_eq!(map.len(), 2);
    // the later active overlay wins
    assert_eq!(map.get("assets/a.json"), Some(&5));
    assert_eq!(map.get("assets/b.json"), Some(&1));
    assert_eq!(map.get("assets/c.json"), None);
    assert_eq!(map.get("old/assets/b.json"), None);
}
