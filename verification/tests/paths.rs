use packobf::resource_pack::identifier::Identifier;
use packobf::{get_type, parse_path};

#[test]
fn test_get_type() {
    assert_eq!(
        get_type("assets/minecraft/textures/block/stone.png").as_deref(),
        Some("textures")
    );
    assert_eq!(
        get_type("assets/minecraft/models/item/tool.json").as_deref(),
        Some("models")
    );
    assert_eq!(
        get_type("overlay_1/assets/minecraft/textures/block/dirt.png").as_deref(),
        Some("textures")
    );
    assert_eq!(get_type(""), None);
    assert_eq!(get_type("assets/"), None);
    assert_eq!(get_type("assets/minecraft"), None);
}

#[test]
fn test_parse_path() {
    let (overlay, id) = parse_path("assets/minecraft/textures/block/stone.png");
    assert_eq!(overlay, "");
    assert_eq!(id, Identifier::new("minecraft", "block/stone"));
    let (overlay, id) = parse_path("overlay_1/assets/minecraft/models/item/stick.json");
    assert_eq!(overlay, "overlay_1");
    assert_eq!(id, Identifier::new(&"minecraft".to_string(), &"item/stick".to_string()));
    let (overlay, id) = parse_path("assets/minecraft/textures/block/my.block.png");
    assert_eq!(overlay, "");
    assert_eq!(id, Identifier::new(&"minecraft".to_string(), &"block/my.block".to_string()));
    let (overlay, id) = parse_path("assets/minecraft/textures/no_extension");
    assert_eq!(overlay, "");
    assert_eq!(id, Identifier::new(&"minecraft".to_string(), &"no_extension".to_string()));
}
