//! The vanilla asset names known to the optimizer, and the atlas a texture
//! path belongs to.
use crate::text::{chars_of, starts_with, starts_with_chars};
use vstd::hash_set::StringHashSet;
use vstd::prelude::*;

verus! {

/// The names of the models, textures and sounds that ship with Minecraft.
pub struct BuiltinFiles {
    pub models: StringHashSet,
    pub textures: StringHashSet,
    pub sounds: StringHashSet,
}

impl BuiltinFiles {
    /// An empty set of names.
    pub fn new() -> (r: Self)
        ensures
            r.models@.is_empty(),
            r.textures@.is_empty(),
            r.sounds@.is_empty(),
    {
        BuiltinFiles {
            models: StringHashSet::new(),
            textures: StringHashSet::new(),
            sounds: StringHashSet::new(),
        }
    }
}

/// `input` names a vanilla model.
pub fn is_in_models(files: &BuiltinFiles, input: &str) -> (r: bool)
    ensures
        r == files.models@.contains(input@),
{
    files.models.contains(input)
}

/// `input` names a vanilla texture.
pub fn is_in_textures(files: &BuiltinFiles, input: &str) -> (r: bool)
    ensures
        r == files.textures@.contains(input@),
{
    files.textures.contains(input)
}

/// `input` names a vanilla sound.
pub fn is_in_sounds(files: &BuiltinFiles, input: &str) -> (r: bool)
    ensures
        r == files.sounds@.contains(input@),
{
    files.sounds.contains(input)
}

/// The atlases Minecraft builds, by the name of their definition file.
#[derive(Clone, Copy, Debug, PartialEq, Eq, Structural)]
pub enum AtlasType {
    ArmorTrims,
    BannerPatterns,
    Beds,
    Blocks,
    Celestials,
    Chests,
    DecoratedPot,
    GUI,
    Items,
    MapDecorations,
    Paintings,
    Particles,
    ShieldPatterns,
    ShulkerBoxes,
    Signs,
}

/// The name of an atlas's definition file (without `.json`).
pub open spec fn atlas_name(t: AtlasType) -> Seq<char> {
    match t {
        AtlasType::ArmorTrims => "armor_trims"@,
        AtlasType::BannerPatterns => "banner_patterns"@,
        AtlasType::Beds => "beds"@,
        AtlasType::Blocks => "blocks"@,
        AtlasType::Celestials => "celestials"@,
        AtlasType::Chests => "chests"@,
        AtlasType::DecoratedPot => "decorated_pot"@,
        AtlasType::GUI => "gui"@,
        AtlasType::Items => "items"@,
        AtlasType::MapDecorations => "map_decorations"@,
        AtlasType::Paintings => "paintings"@,
        AtlasType::Particles => "particles"@,
        AtlasType::ShieldPatterns => "shield_patterns"@,
        AtlasType::ShulkerBoxes => "shulker_boxes"@,
        AtlasType::Signs => "signs"@,
    }
}

/// The atlas whose definition file is named `name`.
pub open spec fn atlas_from_name(name: Seq<char>) -> Option<AtlasType> {
    if name == "armor_trims"@ {
        Some(AtlasType::ArmorTrims)
    } else if name == "banner_patterns"@ {
        Some(AtlasType::BannerPatterns)
    } else if name == "beds"@ {
        Some(AtlasType::Beds)
    } else if name == "blocks"@ {
        Some(AtlasType::Blocks)
    } else if name == "celestials"@ {
        Some(AtlasType::Celestials)
    } else if name == "chests"@ {
        Some(AtlasType::Chests)
    } else if name == "decorated_pot"@ {
        Some(AtlasType::DecoratedPot)
    } else if name == "gui"@ {
        Some(AtlasType::GUI)
    } else if name == "items"@ {
        Some(AtlasType::Items)
    } else if name == "map_decorations"@ {
        Some(AtlasType::MapDecorations)
    } else if name == "paintings"@ {
        Some(AtlasType::Paintings)
    } else if name == "particles"@ {
        Some(AtlasType::Particles)
    } else if name == "shield_patterns"@ {
        Some(AtlasType::ShieldPatterns)
    } else if name == "shulker_boxes"@ {
        Some(AtlasType::ShulkerBoxes)
    } else if name == "signs"@ {
        Some(AtlasType::Signs)
    } else {
        None
    }
}

impl AtlasType {
    /// The name of this atlas's definition file, in snake case.
    pub fn name(&self) -> (r: String)
        ensures
            r@ == atlas_name(*self),
    {
        match self {
            AtlasType::ArmorTrims => "armor_trims".to_owned(),
            AtlasType::BannerPatterns => "banner_patterns".to_owned(),
            AtlasType::Beds => "beds".to_owned(),
            AtlasType::Blocks => "blocks".to_owned(),
            AtlasType::Celestials => "celestials".to_owned(),
            AtlasType::Chests => "chests".to_owned(),
            AtlasType::DecoratedPot => "decorated_pot".to_owned(),
            AtlasType::GUI => "gui".to_owned(),
            AtlasType::Items => "items".to_owned(),
            AtlasType::MapDecorations => "map_decorations".to_owned(),
            AtlasType::Paintings => "paintings".to_owned(),
            AtlasType::Particles => "particles".to_owned(),
            AtlasType::ShieldPatterns => "shield_patterns".to_owned(),
            AtlasType::ShulkerBoxes => "shulker_boxes".to_owned(),
            AtlasType::Signs => "signs".to_owned(),
        }
    }

    /// The atlas named `name`, if there is one.
    pub fn from_name(name: &str) -> (r: Option<AtlasType>)
        ensures
            r == atlas_from_name(name@),
    {
        let n = name.to_owned();
        if n == "armor_trims".to_owned() {
            Some(AtlasType::ArmorTrims)
        } else if n == "banner_patterns".to_owned() {
            Some(AtlasType::BannerPatterns)
        } else if n == "beds".to_owned() {
            Some(AtlasType::Beds)
        } else if n == "blocks".to_owned() {
            Some(AtlasType::Blocks)
        } else if n == "celestials".to_owned() {
            Some(AtlasType::Celestials)
        } else if n == "chests".to_owned() {
            Some(AtlasType::Chests)
        } else if n == "decorated_pot".to_owned() {
            Some(AtlasType::DecoratedPot)
        } else if n == "gui".to_owned() {
            Some(AtlasType::GUI)
        } else if n == "items".to_owned() {
            Some(AtlasType::Items)
        } else if n == "map_decorations".to_owned() {
            Some(AtlasType::MapDecorations)
        } else if n == "paintings".to_owned() {
            Some(AtlasType::Paintings)
        } else if n == "particles".to_owned() {
            Some(AtlasType::Particles)
        } else if n == "shield_patterns".to_owned() {
            Some(AtlasType::ShieldPatterns)
        } else if n == "shulker_boxes".to_owned() {
            Some(AtlasType::ShulkerBoxes)
        } else if n == "signs".to_owned() {
            Some(AtlasType::Signs)
        } else {
            None
        }
    }
}

/// Reading an atlas's name back gives the same atlas.
pub proof fn atlas_name_round_trip(t: AtlasType)
    ensures
        atlas_from_name(atlas_name(t)) == Some(t),
{
    reveal_strlit("armor_trims");
    reveal_strlit("banner_patterns");
    reveal_strlit("beds");
    reveal_strlit("blocks");
    reveal_strlit("celestials");
    reveal_strlit("chests");
    reveal_strlit("decorated_pot");
    reveal_strlit("gui");
    reveal_strlit("items");
    reveal_strlit("map_decorations");
    reveal_strlit("paintings");
    reveal_strlit("particles");
    reveal_strlit("shield_patterns");
    reveal_strlit("shulker_boxes");
    reveal_strlit("signs");
    match t {
        AtlasType::ArmorTrims => {
        },
        AtlasType::BannerPatterns => {
            assert("banner_patterns"@.len() != "armor_trims"@.len());
        },
        AtlasType::Beds => {
            assert("beds"@.len() != "armor_trims"@.len());
            assert("beds"@.len() != "banner_patterns"@.len());
        },
        AtlasType::Blocks => {
            assert("blocks"@.len() != "armor_trims"@.len());
            assert("blocks"@.len() != "banner_patterns"@.len());
            assert("blocks"@.len() != "beds"@.len());
        },
        AtlasType::Celestials => {
            assert("celestials"@.len() != "armor_trims"@.len());
            assert("celestials"@.len() != "banner_patterns"@.len());
            assert("celestials"@.len() != "beds"@.len());
            assert("celestials"@.len() != "blocks"@.len());
        },
        AtlasType::Chests => {
            assert("chests"@.len() != "armor_trims"@.len());
            assert("chests"@.len() != "banner_patterns"@.len());
            assert("chests"@.len() != "beds"@.len());
            assert("chests"@[0] != "blocks"@[0]);
            assert("chests"@.len() != "celestials"@.len());
        },
        AtlasType::DecoratedPot => {
            assert("decorated_pot"@.len() != "armor_trims"@.len());
            assert("decorated_pot"@.len() != "banner_patterns"@.len());
            assert("decorated_pot"@.len() != "beds"@.len());
            assert("decorated_pot"@.len() != "blocks"@.len());
            assert("decorated_pot"@.len() != "celestials"@.len());
            assert("decorated_pot"@.len() != "chests"@.len());
        },
        AtlasType::GUI => {
            assert("gui"@.len() != "armor_trims"@.len());
            assert("gui"@.len() != "banner_patterns"@.len());
            assert("gui"@.len() != "beds"@.len());
            assert("gui"@.len() != "blocks"@.len());
            assert("gui"@.len() != "celestials"@.len());
            assert("gui"@.len() != "chests"@.len());
            assert("gui"@.len() != "decorated_pot"@.len());
        },
        AtlasType::Items => {
            assert("items"@.len() != "armor_trims"@.len());
            assert("items"@.len() != "banner_patterns"@.len());
            assert("items"@.len() != "beds"@.len());
            assert("items"@.len() != "blocks"@.len());
            assert("items"@.len() != "celestials"@.len());
            assert("items"@.len() != "chests"@.len());
            assert("items"@.len() != "decorated_pot"@.len());
            assert("items"@.len() != "gui"@.len());
        },
        AtlasType::MapDecorations => {
            assert("map_decorations"@.len() != "armor_trims"@.len());
            assert("map_decorations"@[0] != "banner_patterns"@[0]);
            assert("map_decorations"@.len() != "beds"@.len());
            assert("map_decorations"@.len() != "blocks"@.len());
            assert("map_decorations"@.len() != "celestials"@.len());
            assert("map_decorations"@.len() != "chests"@.len());
            assert("map_decorations"@.len() != "decorated_pot"@.len());
            assert("map_decorations"@.len() != "gui"@.len());
            assert("map_decorations"@.len() != "items"@.len());
        },
        AtlasType::Paintings => {
            assert("paintings"@.len() != "armor_trims"@.len());
            assert("paintings"@.len() != "banner_patterns"@.len());
            assert("paintings"@.len() != "beds"@.len());
            assert("paintings"@.len() != "blocks"@.len());
            assert("paintings"@.len() != "celestials"@.len());
            assert("paintings"@.len() != "chests"@.len());
            assert("paintings"@.len() != "decorated_pot"@.len());
            assert("paintings"@.len() != "gui"@.len());
            assert("paintings"@.len() != "items"@.len());
            assert("paintings"@.len() != "map_decorations"@.len());
        },
        AtlasType::Particles => {
            assert("particles"@.len() != "armor_trims"@.len());
            assert("particles"@.len() != "banner_patterns"@.len());
            assert("particles"@.len() != "beds"@.len());
            assert("particles"@.len() != "blocks"@.len());
            assert("particles"@.len() != "celestials"@.len());
            assert("particles"@.len() != "chests"@.len());
            assert("particles"@.len() != "decorated_pot"@.len());
            assert("particles"@.len() != "gui"@.len());
            assert("particles"@.len() != "items"@.len());
            assert("particles"@.len() != "map_decorations"@.len());
            assert("particles"@[2] != "paintings"@[2]);
        },
        AtlasType::ShieldPatterns => {
            assert("shield_patterns"@.len() != "armor_trims"@.len());
            assert("shield_patterns"@[0] != "banner_patterns"@[0]);
            assert("shield_patterns"@.len() != "beds"@.len());
            assert("shield_patterns"@.len() != "blocks"@.len());
            assert("shield_patterns"@.len() != "celestials"@.len());
            assert("shield_patterns"@.len() != "chests"@.len());
            assert("shield_patterns"@.len() != "decorated_pot"@.len());
            assert("shield_patterns"@.len() != "gui"@.len());
            assert("shield_patterns"@.len() != "items"@.len());
            assert("shield_patterns"@[0] != "map_decorations"@[0]);
            assert("shield_patterns"@.len() != "paintings"@.len());
            assert("shield_patterns"@.len() != "particles"@.len());
        },
        AtlasType::ShulkerBoxes => {
            assert("shulker_boxes"@.len() != "armor_trims"@.len());
            assert("shulker_boxes"@.len() != "banner_patterns"@.len());
            assert("shulker_boxes"@.len() != "beds"@.len());
            assert("shulker_boxes"@.len() != "blocks"@.len());
            assert("shulker_boxes"@.len() != "celestials"@.len());
            assert("shulker_boxes"@.len() != "chests"@.len());
            assert("shulker_boxes"@[0] != "decorated_pot"@[0]);
            assert("shulker_boxes"@.len() != "gui"@.len());
            assert("shulker_boxes"@.len() != "items"@.len());
            assert("shulker_boxes"@.len() != "map_decorations"@.len());
            assert("shulker_boxes"@.len() != "paintings"@.len());
            assert("shulker_boxes"@.len() != "particles"@.len());
            assert("shulker_boxes"@.len() != "shield_patterns"@.len());
        },
        AtlasType::Signs => {
            assert("signs"@.len() != "armor_trims"@.len());
            assert("signs"@.len() != "banner_patterns"@.len());
            assert("signs"@.len() != "beds"@.len());
            assert("signs"@.len() != "blocks"@.len());
            assert("signs"@.len() != "celestials"@.len());
            assert("signs"@.len() != "chests"@.len());
            assert("signs"@.len() != "decorated_pot"@.len());
            assert("signs"@.len() != "gui"@.len());
            assert("signs"@[0] != "items"@[0]);
            assert("signs"@.len() != "map_decorations"@.len());
            assert("signs"@.len() != "paintings"@.len());
            assert("signs"@.len() != "particles"@.len());
            assert("signs"@.len() != "shield_patterns"@.len());
            assert("signs"@.len() != "shulker_boxes"@.len());
        },
    }
}

pub open spec fn block_prefix() -> Seq<char> {
    seq!['b', 'l', 'o', 'c', 'k', '/']
}

pub open spec fn conduit_prefix() -> Seq<char> {
    seq!['e', 'n', 't', 'i', 't', 'y', '/', 'c', 'o', 'n', 'd', 'u', 'i', 't', '/']
}

pub open spec fn item_prefix() -> Seq<char> {
    seq!['i', 't', 'e', 'm', '/']
}

/// The atlas a texture path is stitched into, for the atlases a resource pack
/// can use (blocks and items).
pub open spec fn atlas_of(path: Seq<char>) -> Option<AtlasType> {
    if starts_with(path, block_prefix()) || starts_with(path, conduit_prefix()) {
        Some(AtlasType::Blocks)
    } else if starts_with(path, item_prefix()) {
        Some(AtlasType::Items)
    } else {
        None
    }
}

/// This only works with atlases actually usable in resource packs (currently
/// only blocks and items).
pub fn get_atlas(input: &str) -> (r: Option<AtlasType>)
    ensures
        r == atlas_of(input@),
{
    let s = chars_of(input);
    let block = vec!['b', 'l', 'o', 'c', 'k', '/'];
    let conduit = vec!['e', 'n', 't', 'i', 't', 'y', '/', 'c', 'o', 'n', 'd', 'u', 'i', 't', '/'];
    let item = vec!['i', 't', 'e', 'm', '/'];
    assert(block@ == block_prefix());
    assert(conduit@ == conduit_prefix());
    assert(item@ == item_prefix());
    if starts_with_chars(&s, &block) || starts_with_chars(&s, &conduit) {
        Some(AtlasType::Blocks)
    } else if starts_with_chars(&s, &item) {
        Some(AtlasType::Items)
    } else {
        None
    }
}

} // verus!
