//! What each file of the input archive is read as, by its name.
use crate::minecraft::builtin_files::{AtlasType, atlas_from_name};
use crate::text::{chars_of, ends_with, ends_with_chars, join3};
use crate::{LogLevel, LogMessage};
use crate::{get_type, parse_path, parsed_path, type_of_path};
use vstd::prelude::*;

verus! {

/// How a file of the pack is read.
#[derive(Clone, Copy, Debug, PartialEq, Eq, Structural)]
pub enum FileKind {
    Model,
    Blockstate,
    Item,
    Font,
    /// An atlas definition of a known atlas.
    Atlas(AtlasType),
    /// An atlas definition whose name is no known atlas: kept as it is.
    UnknownAtlas,
    SoundDefinitions,
    /// Any other JSON or `.mcmeta` file: kept as JSON.
    JsonFile,
    /// A PNG under a `textures` directory.
    Texture,
    /// Any other PNG.
    UnknownTexture,
    Shader,
    Sound,
    /// Anything else: kept as it is.
    Unknown,
}

/// The kind of a file, by its name: `.json` files by their asset type
/// (`models`, `blockstates`, `items`, `font`, `atlases`), `sounds.json`
/// files, other `.json` and `.mcmeta` files; PNGs under `textures`; shader
/// sources (`.vsh`, `.fsh`, `.glsl`); OGG files under `sounds`.
pub open spec fn kind_of(name: Seq<char>) -> FileKind {
    if ends_with(name, ".json"@) {
        let t = type_of_path(name);
        if t == Some("models"@) {
            FileKind::Model
        } else if t == Some("blockstates"@) {
            FileKind::Blockstate
        } else if t == Some("items"@) {
            FileKind::Item
        } else if t == Some("font"@) {
            FileKind::Font
        } else if t == Some("atlases"@) {
            match atlas_from_name(parsed_path(name).1.1) {
                Some(a) => FileKind::Atlas(a),
                None => FileKind::UnknownAtlas,
            }
        } else if ends_with(name, "/sounds.json"@) {
            FileKind::SoundDefinitions
        } else {
            FileKind::JsonFile
        }
    } else if ends_with(name, ".mcmeta"@) {
        FileKind::JsonFile
    } else if ends_with(name, ".png"@) {
        if type_of_path(name) == Some("textures"@) {
            FileKind::Texture
        } else {
            FileKind::UnknownTexture
        }
    } else if ends_with(name, ".vsh"@) || ends_with(name, ".fsh"@) || ends_with(name, ".glsl"@) {
        FileKind::Shader
    } else if ends_with(name, ".ogg"@) && type_of_path(name) == Some("sounds"@) {
        FileKind::Sound
    } else {
        FileKind::Unknown
    }
}

fn name_ends_with(name: &Vec<char>, suffix: &str) -> (r: bool)
    ensures
        r == ends_with(name@, suffix@),
{
    ends_with_chars(name, &chars_of(suffix))
}

fn type_is(t: &Option<String>, expected: &str) -> (r: bool)
    ensures
        r == (match t {
            Some(s) => s@ == expected@,
            None => false,
        }),
{
    match t {
        Some(s) => *s == expected.to_owned(),
        None => false,
    }
}

/// Decides how the file `name` is read (the decision of the parser, before
/// the content is looked at).
pub fn classify(name: &str) -> (r: FileKind)
    ensures
        r == kind_of(name@),
{
    let n = chars_of(name);
    let t = get_type(name);
    let ghost tv = type_of_path(name@);
    assert(match t {
        Some(s) => tv == Some(s@),
        None => tv is None,
    });
    if name_ends_with(&n, ".json") {
        if type_is(&t, "models") {
            FileKind::Model
        } else if type_is(&t, "blockstates") {
            FileKind::Blockstate
        } else if type_is(&t, "items") {
            FileKind::Item
        } else if type_is(&t, "font") {
            FileKind::Font
        } else if type_is(&t, "atlases") {
            let (_, identifier) = parse_path(name);
            match AtlasType::from_name(identifier.path.as_str()) {
                Some(a) => FileKind::Atlas(a),
                None => FileKind::UnknownAtlas,
            }
        } else if name_ends_with(&n, "/sounds.json") {
            FileKind::SoundDefinitions
        } else {
            FileKind::JsonFile
        }
    } else if name_ends_with(&n, ".mcmeta") {
        FileKind::JsonFile
    } else if name_ends_with(&n, ".png") {
        if type_is(&t, "textures") {
            FileKind::Texture
        } else {
            FileKind::UnknownTexture
        }
    } else if name_ends_with(&n, ".vsh") || name_ends_with(&n, ".fsh") || name_ends_with(&n, ".glsl") {
        FileKind::Shader
    } else if name_ends_with(&n, ".ogg") && type_is(&t, "sounds") {
        FileKind::Sound
    } else {
        FileKind::Unknown
    }
}

} // verus!

verus! {

proof fn lemma_ends_with_last(s: Seq<char>, p: Seq<char>)
    requires
        ends_with(s, p),
        p.len() > 0,
    ensures
        s.last() == p.last(),
{
    assert(s.subrange(s.len() - p.len(), s.len() as int)[p.len() - 1] == s.last());
}

/// The last character of each suffix that decides a file's kind before the
/// shader suffixes are looked at.
proof fn lemma_suffix_lasts()
    ensures
        ".json"@.len() == 5 && ".json"@.last() == 'n',
        ".mcmeta"@.len() == 7 && ".mcmeta"@.last() == 'a',
        ".png"@.len() == 4 && ".png"@.last() == 'g',
        ".vsh"@.len() == 4 && ".vsh"@.last() == 'h',
        ".fsh"@.len() == 4 && ".fsh"@.last() == 'h',
        ".glsl"@.len() == 5 && ".glsl"@.last() == 'l',
        ".ogg"@.len() == 4 && ".ogg"@.last() == 'g',
{
    reveal_strlit(".json");
    reveal_strlit(".mcmeta");
    reveal_strlit(".png");
    reveal_strlit(".vsh");
    reveal_strlit(".fsh");
    reveal_strlit(".glsl");
    reveal_strlit(".ogg");
}

/// Shader sources are read as shaders, whatever directory they lie in:
/// vertex (`.vsh`), fragment (`.fsh`) and include (`.glsl`) files.
pub proof fn shader_sources_are_shaders(name: Seq<char>)
    requires
        ends_with(name, ".vsh"@) || ends_with(name, ".fsh"@) || ends_with(name, ".glsl"@),
    ensures
        kind_of(name) == FileKind::Shader,
{
    lemma_suffix_lasts();
    if ends_with(name, ".vsh"@) {
        lemma_ends_with_last(name, ".vsh"@);
    } else if ends_with(name, ".fsh"@) {
        lemma_ends_with_last(name, ".fsh"@);
    } else {
        lemma_ends_with_last(name, ".glsl"@);
    }
    if ends_with(name, ".json"@) {
        lemma_ends_with_last(name, ".json"@);
    }
    if ends_with(name, ".mcmeta"@) {
        lemma_ends_with_last(name, ".mcmeta"@);
    }
    if ends_with(name, ".png"@) {
        lemma_ends_with_last(name, ".png"@);
    }
}

/// Only shader sources are read as shaders, only PNG files as textures
/// (under `textures`) or other images, only `.ogg` files under `sounds` as
/// sounds, and `.mcmeta` files are read as JSON.
pub proof fn kinds_follow_the_suffix(name: Seq<char>)
    ensures
        kind_of(name) == FileKind::Shader ==> ends_with(name, ".vsh"@) || ends_with(name, ".fsh"@) || ends_with(
            name,
            ".glsl"@,
        ),
        kind_of(name) == FileKind::Texture ==> ends_with(name, ".png"@) && type_of_path(name) == Some("textures"@),
        kind_of(name) == FileKind::UnknownTexture ==> ends_with(name, ".png"@),
        kind_of(name) == FileKind::Sound ==> ends_with(name, ".ogg"@) && type_of_path(name) == Some("sounds"@),
        ends_with(name, ".mcmeta"@) ==> kind_of(name) == FileKind::JsonFile,
        ends_with(name, ".png"@) ==> (kind_of(name) == FileKind::Texture <==> type_of_path(name) == Some(
            "textures"@,
        )),
        ends_with(name, ".ogg"@) && type_of_path(name) == Some("sounds"@) ==> kind_of(name) == FileKind::Sound,
        ends_with(name, ".json"@) && type_of_path(name) == Some("models"@) ==> kind_of(name) == FileKind::Model,
        ends_with(name, ".json"@) && type_of_path(name) == Some("blockstates"@) ==> kind_of(name)
            == FileKind::Blockstate,
        ends_with(name, ".json"@) && type_of_path(name) == Some("items"@) ==> kind_of(name) == FileKind::Item,
        ends_with(name, ".json"@) && type_of_path(name) == Some("font"@) ==> kind_of(name) == FileKind::Font,
{
    lemma_suffix_lasts();
    reveal_strlit("models");
    reveal_strlit("blockstates");
    reveal_strlit("items");
    reveal_strlit("font");
    reveal_strlit("textures");
    reveal_strlit("sounds");
    reveal_strlit("atlases");
    assert("models"@.len() == 6 && "blockstates"@.len() == 11 && "items"@.len() == 5 && "font"@.len() == 4
        && "atlases"@.len() == 7);
    reveal_strlit(".ogg");
    reveal_strlit(".png");
    assert(".ogg"@[1] == 'o' && ".png"@[1] == 'p');
    if ends_with(name, ".ogg"@) && ends_with(name, ".png"@) {
        assert(".ogg"@ == ".png"@);
    }
    if ends_with(name, ".json"@) {
        lemma_ends_with_last(name, ".json"@);
    }
    if ends_with(name, ".mcmeta"@) {
        lemma_ends_with_last(name, ".mcmeta"@);
    }
    if ends_with(name, ".png"@) {
        lemma_ends_with_last(name, ".png"@);
    }
    if ends_with(name, ".ogg"@) {
        lemma_ends_with_last(name, ".ogg"@);
    }
    if ends_with(name, ".vsh"@) {
        lemma_ends_with_last(name, ".vsh"@);
    }
    if ends_with(name, ".fsh"@) {
        lemma_ends_with_last(name, ".fsh"@);
    }
    if ends_with(name, ".glsl"@) {
        lemma_ends_with_last(name, ".glsl"@);
    }
}

/// A texture is written where it is read back as a texture.
pub proof fn stored_texture_is_read_as_texture(overlay: Seq<char>, namespace: Seq<char>, path: Seq<char>)
    requires
        crate::resource_pack::files::asset_path::readable_location(
            overlay,
            namespace,
            crate::resource_pack::files::asset_texture::textures_dir(),
        ),
    ensures
        kind_of(
            crate::resource_pack::files::asset_path::asset_path_text(
                overlay,
                namespace,
                crate::resource_pack::files::asset_texture::textures_dir(),
                path,
                crate::resource_pack::files::asset_texture::png_ext(),
            ),
        ) == FileKind::Texture,
{
    let kind = crate::resource_pack::files::asset_texture::textures_dir();
    let full = crate::resource_pack::files::asset_path::asset_path_text(
        overlay,
        namespace,
        kind,
        path,
        crate::resource_pack::files::asset_texture::png_ext(),
    );
    crate::resource_pack::files::asset_path::asset_path_type(
        overlay,
        namespace,
        kind,
        path,
        crate::resource_pack::files::asset_texture::png_ext(),
    );
    reveal_strlit(".json");
    reveal_strlit(".mcmeta");
    reveal_strlit(".png");
    reveal_strlit("textures");
    assert(full.last() == 'g');
    if ends_with(full, ".json"@) {
        lemma_ends_with_last(full, ".json"@);
    }
    if ends_with(full, ".mcmeta"@) {
        lemma_ends_with_last(full, ".mcmeta"@);
    }
    assert(full.subrange(full.len() - 4, full.len() as int) =~= ".png"@);
    assert(kind =~= "textures"@);
}

} // verus!

verus! {

/// A sound is written where it is read back as a sound.
pub proof fn stored_sound_is_read_as_sound(overlay: Seq<char>, namespace: Seq<char>, path: Seq<char>)
    requires
        crate::resource_pack::files::asset_path::readable_location(
            overlay,
            namespace,
            crate::resource_pack::files::sound::sounds_dir(),
        ),
    ensures
        kind_of(
            crate::resource_pack::files::asset_path::asset_path_text(
                overlay,
                namespace,
                crate::resource_pack::files::sound::sounds_dir(),
                path,
                crate::resource_pack::files::sound::ogg_ext(),
            ),
        ) == FileKind::Sound,
{
    let kind = crate::resource_pack::files::sound::sounds_dir();
    let ext = crate::resource_pack::files::sound::ogg_ext();
    let full = crate::resource_pack::files::asset_path::asset_path_text(overlay, namespace, kind, path, ext);
    crate::resource_pack::files::asset_path::asset_path_type(overlay, namespace, kind, path, ext);
    reveal_strlit(".json");
    reveal_strlit(".mcmeta");
    reveal_strlit(".png");
    reveal_strlit(".vsh");
    reveal_strlit(".fsh");
    reveal_strlit(".glsl");
    reveal_strlit(".ogg");
    reveal_strlit("sounds");
    assert(full.last() == 'g');
    let tail = full.subrange(full.len() - 4, full.len() as int);
    assert(tail =~= ".ogg"@);
    if ends_with(full, ".json"@) {
        lemma_ends_with_last(full, ".json"@);
    }
    if ends_with(full, ".mcmeta"@) {
        lemma_ends_with_last(full, ".mcmeta"@);
    }
    if ends_with(full, ".png"@) {
        assert(tail[1] == ".png"@[1]);
    }
    if ends_with(full, ".vsh"@) {
        lemma_ends_with_last(full, ".vsh"@);
    }
    if ends_with(full, ".fsh"@) {
        lemma_ends_with_last(full, ".fsh"@);
    }
    if ends_with(full, ".glsl"@) {
        lemma_ends_with_last(full, ".glsl"@);
    }
    assert(kind =~= "sounds"@);
}

/// Why a file could not be read as its kind: its bytes are not UTF-8, or
/// its JSON is malformed (with the reader's error text).
pub enum ReadFailure {
    NotUtf8(String),
    Malformed(String),
}

/// The error logged when file `name` of kind `kind` is kept as an unknown
/// file instead of going to the collection of its kind, given how reading
/// it went; `None` when it goes to its collection.
pub open spec fn fallback_message(name: Seq<char>, kind: FileKind, failure: Option<(bool, Seq<char>)>) -> Option<Seq<char>> {
    match failure {
        Some((true, e)) => Some("Invalid UTF-8 in '"@ + name + "': "@ + e),
        _ => if kind is UnknownAtlas {
            Some("Unknown atlas type '"@ + name + "'"@)
        } else {
            match failure {
                Some((_, e)) => Some(
                    "Could not parse '"@ + name
                        + "'. This is most likely not a packobf issue but a json file that is malformed. Treating it as an unknown file. Error: "@
                        + e,
                ),
                None => None,
            }
        },
    }
}

pub open spec fn failure_view(f: Option<&ReadFailure>) -> Option<(bool, Seq<char>)> {
    match f {
        Some(ReadFailure::NotUtf8(e)) => Some((true, e@)),
        Some(ReadFailure::Malformed(e)) => Some((false, e@)),
        None => None,
    }
}

/// Where a file read from the archive goes: `None` when it goes to the
/// collection of its kind; otherwise the error to log, and the file is kept
/// as an unknown file, unchanged. Bytes that are not UTF-8 (for the kinds
/// read as text) come first, then an atlas of unknown type, then malformed
/// JSON.
pub fn file_fallback(name: &str, kind: FileKind, failure: Option<&ReadFailure>) -> (r: Option<LogMessage>)
    ensures
        match fallback_message(name@, kind, failure_view(failure)) {
            Some(m) => r matches Some(l) && l.level == LogLevel::Error && l.message@ == m,
            None => r is None,
        },
{
    proof {
        reveal_strlit("Invalid UTF-8 in '");
        reveal_strlit("': ");
        reveal_strlit("Unknown atlas type '");
        reveal_strlit("'");
        reveal_strlit("Could not parse '");
        reveal_strlit(
            "'. This is most likely not a packobf issue but a json file that is malformed. Treating it as an unknown file. Error: ",
        );
    }
    match failure {
        Some(ReadFailure::NotUtf8(e)) => {
            let message = join3(join3("Invalid UTF-8 in '", name, "': ").as_str(), e.as_str(), "");
            proof {
                reveal_strlit("");
                assert(message@ =~= "Invalid UTF-8 in '"@ + name@ + "': "@ + e@);
            }
            return Some(LogMessage { level: LogLevel::Error, message });
        },
        _ => {},
    }
    match kind {
        FileKind::UnknownAtlas => {
            let message = join3("Unknown atlas type '", name, "'");
            return Some(LogMessage { level: LogLevel::Error, message });
        },
        _ => {},
    }
    match failure {
        Some(ReadFailure::Malformed(e)) => {
            let head = join3(
                "Could not parse '",
                name,
                "'. This is most likely not a packobf issue but a json file that is malformed. Treating it as an unknown file. Error: ",
            );
            let message = join3(head.as_str(), e.as_str(), "");
            proof {
                reveal_strlit("");
                assert(message@ =~= head@ + e@);
            }
            Some(LogMessage { level: LogLevel::Error, message })
        },
        _ => None,
    }
}

/// A file that was read without trouble goes to the collection of its kind,
/// except an atlas of unknown type; a file that could not be read is always
/// kept as an unknown file with an error naming it; bytes that are not UTF-8
/// are reported as such whatever the kind.
pub proof fn only_unreadable_files_fall_back(name: Seq<char>, kind: FileKind, failure: Option<(bool, Seq<char>)>)
    ensures
        failure is None ==> (fallback_message(name, kind, failure) is Some <==> kind is UnknownAtlas),
        failure is Some ==> fallback_message(name, kind, failure) is Some,
        failure matches Some((true, e)) ==> fallback_message(name, kind, failure) == Some(
            "Invalid UTF-8 in '"@ + name + "': "@ + e,
        ),
        kind is UnknownAtlas && !(failure matches Some((true, _))) ==> fallback_message(name, kind, failure) == Some(
            "Unknown atlas type '"@ + name + "'"@,
        ),
{
}

} // verus!
