//! Atlas definitions (`assets/minecraft/atlases/<type>.json`): which
//! textures an atlas stitches, and under which sprite name.
use crate::minecraft::builtin_files::{AtlasType, atlas_name};
use crate::resource_pack::files::asset_path::overlay_prefix;
use crate::resource_pack::identifier::Identifier;
use crate::text::{chars_of, concat_chars, slice_chars, starts_with, starts_with_chars, string_of};
use vstd::prelude::*;

verus! {

/// The namespace and path patterns (regular expressions) of a filter
/// source; a missing pattern matches everything.
#[derive(Clone, Debug)]
pub struct FilterPattern {
    pub namespace: Option<String>,
    pub path: Option<String>,
}

/// The sources of an atlas that decide which textures it holds. Sources of
/// other kinds are kept by their position in the definition file.
#[derive(Clone, Debug)]
pub enum AtlasSource {
    /// Every texture under `source/`, as sprite `prefix` + the rest of the path.
    Directory { source: String, prefix: String },
    /// One texture, as sprite `sprite` (or its own name).
    Single { resource: Identifier, sprite: Option<Identifier> },
    /// Removes the sprites whose identifier matches the pattern.
    Filter { pattern: FilterPattern },
    /// Another kind of source, at this position of the definition.
    Other(usize),
}

/// What a source holds, as plain values.
pub enum SourceView {
    Directory { source: Seq<char>, prefix: Seq<char> },
    Single { resource: (Seq<char>, Seq<char>), sprite: Option<(Seq<char>, Seq<char>)> },
    Filter { namespace: Option<Seq<char>>, path: Option<Seq<char>> },
    Other(usize),
}

/// The text of an optional string.
pub open spec fn optional_text(s: Option<String>) -> Option<Seq<char>> {
    match s {
        Some(t) => Some(t@),
        None => None,
    }
}

impl View for AtlasSource {
    type V = SourceView;

    open spec fn view(&self) -> SourceView {
        match self {
            AtlasSource::Directory { source, prefix } => SourceView::Directory { source: source@, prefix: prefix@ },
            AtlasSource::Single { resource, sprite } => SourceView::Single {
                resource: resource.parts(),
                sprite: match sprite {
                    Some(s) => Some(s.parts()),
                    None => None,
                },
            },
            AtlasSource::Filter { pattern } => SourceView::Filter {
                namespace: optional_text(pattern.namespace),
                path: optional_text(pattern.path),
            },
            AtlasSource::Other(index) => SourceView::Other(*index),
        }
    }
}

/// The views of a list of sources.
pub open spec fn source_views(sources: Seq<AtlasSource>) -> Seq<SourceView> {
    sources.map_values(|s: AtlasSource| s@)
}

/// An atlas definition, in the overlay it lies in.
#[derive(Clone, Debug)]
pub struct Atlas {
    pub overlay: String,
    pub atlas_type: AtlasType,
    pub sources: Vec<AtlasSource>,
}

/// Whether `pattern` is a regular expression the `regex` crate compiles.
pub uninterp spec fn regex_compiles(pattern: Seq<char>) -> bool;

/// Whether the compiled `pattern` matches somewhere in `text`.
pub uninterp spec fn regex_is_match(pattern: Seq<char>, text: Seq<char>) -> bool;

/// Compiles `pattern` with `regex::Regex::new` and, when it compiles, tells
/// whether `Regex::is_match` finds it in `text`. The contract says no more
/// than that the outcome is fixed by the pattern and the text.
#[verifier::external_body]
fn regex_match(pattern: &str, text: &str) -> (r: Option<bool>)
    ensures
        r is Some <==> regex_compiles(pattern@),
        r matches Some(m) ==> m == regex_is_match(pattern@, text@),
{
    match regex::Regex::new(pattern) {
        Ok(re) => Some(re.is_match(text)),
        Err(_) => None,
    }
}

/// A part of a filter matches: a missing pattern matches everything, a
/// pattern that does not compile matches nothing.
pub open spec fn pattern_part_matches(pattern: Option<String>, text: Seq<char>) -> bool {
    match pattern {
        Some(p) => regex_compiles(p@) && regex_is_match(p@, text),
        None => true,
    }
}

/// The sprite name under which a source stitches texture `id`.
pub open spec fn source_sprite(source: AtlasSource, id: (Seq<char>, Seq<char>)) -> Option<(Seq<char>, Seq<char>)> {
    match source {
        AtlasSource::Single { resource, sprite } => {
            let name = match sprite {
                Some(s) => s.parts(),
                None => resource.parts(),
            };
            if name == id {
                Some(resource.parts())
            } else {
                None
            }
        },
        AtlasSource::Directory { source, prefix } => if starts_with(id.1, prefix@) {
            Some((id.0, source@ + id.1.subrange(prefix@.len() as int, id.1.len() as int)))
        } else {
            None
        },
        _ => None,
    }
}

/// The sprite name given by the first of `sources[i..]` that stitches `id`.
pub open spec fn first_sprite(sources: Seq<AtlasSource>, id: (Seq<char>, Seq<char>), i: int) -> Option<
    (Seq<char>, Seq<char>),
>
    decreases sources.len() - i,
{
    if i < 0 || i >= sources.len() {
        None
    } else {
        match source_sprite(sources[i], id) {
            Some(name) => Some(name),
            None => first_sprite(sources, id, i + 1),
        }
    }
}

/// One of `sources[i..]` is a filter whose pattern matches `id`.
pub open spec fn filtered(sources: Seq<AtlasSource>, id: (Seq<char>, Seq<char>), i: int) -> bool
    decreases sources.len() - i,
{
    if i < 0 || i >= sources.len() {
        false
    } else {
        (match sources[i] {
            AtlasSource::Filter { pattern } => pattern_part_matches(pattern.namespace, id.0)
                && pattern_part_matches(pattern.path, id.1),
            _ => false,
        }) || filtered(sources, id, i + 1)
    }
}

/// The sprite under which the atlas stitches texture `id`, unless a filter
/// removes it.
pub open spec fn atlas_sprite(sources: Seq<AtlasSource>, id: (Seq<char>, Seq<char>)) -> Option<(Seq<char>, Seq<char>)> {
    match first_sprite(sources, id, 0) {
        Some(name) => if filtered(sources, id, 0) {
            None
        } else {
            Some(name)
        },
        None => None,
    }
}

proof fn lemma_no_filter(sources: Seq<AtlasSource>, id: (Seq<char>, Seq<char>), i: int)
    requires
        forall|k: int| 0 <= k < sources.len() ==> !(#[trigger] sources[k] is Filter),
    ensures
        !filtered(sources, id, i),
    decreases sources.len() - i,
{
    if 0 <= i < sources.len() {
        assert(!(sources[i] is Filter));
        lemma_no_filter(sources, id, i + 1);
    }
}

proof fn lemma_filter_found(sources: Seq<AtlasSource>, id: (Seq<char>, Seq<char>), i: int, k: int)
    requires
        0 <= i <= k < sources.len(),
        sources[k] matches AtlasSource::Filter { pattern } && pattern.namespace is None && pattern.path is None,
    ensures
        filtered(sources, id, i),
    decreases k - i,
{
    if i < k {
        lemma_filter_found(sources, id, i + 1, k);
    }
}

/// What the sources of an atlas stitch, in an atlas without filters whose
/// first source is the one named: a single source stitches its resource
/// under its sprite name, or under the resource's own name when it has none
/// (so that name stands for the resource); a directory source stitches every
/// texture whose path starts with its prefix, from the source directory.
/// And a filter that matches everything removes every texture, wherever it
/// stands.
pub proof fn atlas_sources_stitch(sources: Seq<AtlasSource>, id: (Seq<char>, Seq<char>))
    ensures
        (sources.len() > 0 && (forall|k: int| 0 <= k < sources.len() ==> !(#[trigger] sources[k] is Filter)))
            ==> match sources[0] {
            AtlasSource::Single { resource, sprite: None } => atlas_sprite(sources, resource.parts()) == Some(
                resource.parts(),
            ),
            AtlasSource::Single { resource, sprite: Some(name) } => atlas_sprite(sources, name.parts()) == Some(
                resource.parts(),
            ),
            AtlasSource::Directory { source, prefix } => starts_with(id.1, prefix@) ==> atlas_sprite(sources, id)
                == Some((id.0, source@ + id.1.subrange(prefix@.len() as int, id.1.len() as int))),
            _ => true,
        },
        (exists|k: int|
            0 <= k < sources.len() && (#[trigger] sources[k] matches AtlasSource::Filter { pattern }
                && pattern.namespace is None && pattern.path is None)) ==> atlas_sprite(sources, id) is None,
{
    if sources.len() > 0 && (forall|k: int| 0 <= k < sources.len() ==> !(#[trigger] sources[k] is Filter)) {
        match sources[0] {
            AtlasSource::Single { resource, sprite: None } => {
                lemma_no_filter(sources, resource.parts(), 0);
            },
            AtlasSource::Single { resource, sprite: Some(name) } => {
                lemma_no_filter(sources, name.parts(), 0);
            },
            _ => {
                lemma_no_filter(sources, id, 0);
            },
        }
    }
    if exists|k: int|
        0 <= k < sources.len() && (#[trigger] sources[k] matches AtlasSource::Filter { pattern }
            && pattern.namespace is None && pattern.path is None) {
        let k = choose|k: int|
            0 <= k < sources.len() && (#[trigger] sources[k] matches AtlasSource::Filter { pattern }
                && pattern.namespace is None && pattern.path is None);
        lemma_filter_found(sources, id, 0, k);
    }
}

fn optional_matches(pattern: &Option<String>, text: &str) -> (r: bool)
    ensures
        r == pattern_part_matches(*pattern, text@),
{
    match pattern {
        Some(p) => match regex_match(p.as_str(), text) {
            Some(m) => m,
            None => false,
        },
        None => true,
    }
}

impl Atlas {
    /// Where the definition lives:
    /// `[<overlay>/]assets/minecraft/atlases/<type>.json`.
    pub fn path(&self) -> (r: String)
        ensures
            r@ == overlay_prefix(self.overlay@) + "assets/minecraft/atlases/"@ + atlas_name(self.atlas_type)
                + ".json"@,
    {
        let overlay = chars_of(self.overlay.as_str());
        let prefix = if overlay.len() == 0 {
            Vec::new()
        } else {
            concat_chars(&overlay, &vec!['/'])
        };
        assert(prefix@ =~= overlay_prefix(self.overlay@));
        let dir = chars_of("assets/minecraft/atlases/");
        let name = chars_of(self.atlas_type.name().as_str());
        let ext = chars_of(".json");
        let a = concat_chars(&prefix, &dir);
        let b = concat_chars(&a, &name);
        string_of(&concat_chars(&b, &ext))
    }

    /// The sprite under which this atlas stitches `texture_id`: the first
    /// single or directory source that takes it decides the name, and a
    /// filter whose patterns match the texture removes it.
    pub fn get_identifier(&self, texture_id: &Identifier) -> (r: Option<Identifier>)
        ensures
            match r {
                Some(id) => atlas_sprite(self.sources@, texture_id.parts()) == Some(id.parts()),
                None => atlas_sprite(self.sources@, texture_id.parts()) is None,
            },
    {
        let ghost id = texture_id.parts();
        let path = chars_of(texture_id.path.as_str());
        let mut result: Option<Identifier> = None;
        let mut i: usize = 0;
        while i < self.sources.len()
            invariant_except_break
                i <= self.sources.len(),
                id == texture_id.parts(),
                path@ == texture_id.path@,
                result is None,
                first_sprite(self.sources@, id, 0) == first_sprite(self.sources@, id, i as int),
            ensures
                match result {
                    Some(found) => first_sprite(self.sources@, id, 0) == Some(found.parts()),
                    None => first_sprite(self.sources@, id, 0) is None,
                },
            decreases self.sources.len() - i,
        {
            let src = &self.sources[i];
            assert(*src == self.sources@[i as int]);
            match src {
                AtlasSource::Single { resource, sprite } => {
                    let name = match sprite {
                        Some(s) => s,
                        None => resource,
                    };
                    if name.namespace == texture_id.namespace && name.path == texture_id.path {
                        assert(source_sprite(*src, id) == Some(resource.parts()));
                        result = Some(resource.copy());
                        break;
                    }
                    assert(source_sprite(*src, id) is None);
                },
                AtlasSource::Directory { source, prefix } => {
                    let p = chars_of(prefix.as_str());
                    if starts_with_chars(&path, &p) {
                        let rest = slice_chars(&path, p.len(), path.len());
                        let resource_path = concat_chars(&chars_of(source.as_str()), &rest);
                        result = Some(
                            Identifier::from_chars(&chars_of(texture_id.namespace.as_str()), &resource_path),
                        );
                        break;
                    }
                },
                _ => {},
            }
            assert(source_sprite(self.sources@[i as int], id) is None);
            i = i + 1;
        }
        if result.is_some() {
            let mut j: usize = 0;
            while j < self.sources.len()
                invariant
                    j <= self.sources.len(),
                    id == texture_id.parts(),
                    filtered(self.sources@, id, 0) == filtered(self.sources@, id, j as int),
                decreases self.sources.len() - j,
            {
                let src = &self.sources[j];
                assert(*src == self.sources@[j as int]);
                match src {
                    AtlasSource::Filter { pattern } => {
                        if optional_matches(&pattern.namespace, texture_id.namespace.as_str())
                            && optional_matches(&pattern.path, texture_id.path.as_str()) {
                            assert(filtered(self.sources@, id, j as int));
                            return None;
                        }
                    },
                    _ => {},
                }
                assert(filtered(self.sources@, id, j as int) == filtered(self.sources@, id, j + 1));
                j = j + 1;
            }
        }
        result
    }
}

} // verus!

verus! {

/// A copy of a source.
pub fn copy_source(s: &AtlasSource) -> (r: AtlasSource)
    ensures
        r@ == s@,
{
    match s {
        AtlasSource::Directory { source, prefix } => AtlasSource::Directory { source: source.clone(), prefix: prefix.clone() },
        AtlasSource::Single { resource, sprite } => AtlasSource::Single {
            resource: resource.copy(),
            sprite: match sprite {
                Some(x) => Some(x.copy()),
                None => None,
            },
        },
        AtlasSource::Filter { pattern } => AtlasSource::Filter {
            pattern: FilterPattern {
                namespace: match &pattern.namespace {
                    Some(n) => Some(n.clone()),
                    None => None,
                },
                path: match &pattern.path {
                    Some(p) => Some(p.clone()),
                    None => None,
                },
            },
        },
        AtlasSource::Other(index) => AtlasSource::Other(*index),
    }
}

} // verus!
