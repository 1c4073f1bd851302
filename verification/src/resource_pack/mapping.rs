//! Renaming tables for models, textures, sounds and overlays, and the count of
//! references to each identifier.
use crate::minecraft::builtin_files::{BuiltinFiles, is_in_models, is_in_sounds, is_in_textures};
use vstd::hash_map::StringHashMap;
use vstd::prelude::*;

verus! {

#[derive(Debug, Clone, Copy, PartialEq, Eq, Structural)]
pub enum IdCategory {
    Model,
    Texture,
    Sound,
}

/// The new name of each renamed identifier, by category, and of each renamed
/// overlay directory.
pub struct Mapping {
    pub model_mappings: StringHashMap<String>,
    pub texture_mappings: StringHashMap<String>,
    pub sound_mappings: StringHashMap<String>,
    pub overlay_mappings: StringHashMap<String>,
}

/// `id` after renaming by `m`: its new name when it has one, else itself.
pub open spec fn mapped_text(m: Map<Seq<char>, String>, id: Seq<char>) -> Seq<char> {
    if m.contains_key(id) {
        m[id]@
    } else {
        id
    }
}

impl Mapping {
    /// A mapping that renames nothing.
    pub fn new() -> (r: Self)
        ensures
            r.model_mappings@.is_empty(),
            r.texture_mappings@.is_empty(),
            r.sound_mappings@.is_empty(),
            r.overlay_mappings@.is_empty(),
    {
        Mapping {
            model_mappings: StringHashMap::new(),
            texture_mappings: StringHashMap::new(),
            sound_mappings: StringHashMap::new(),
            overlay_mappings: StringHashMap::new(),
        }
    }

    /// The table that renames identifiers of `category`.
    pub open spec fn table(&self, category: IdCategory) -> Map<Seq<char>, String> {
        match category {
            IdCategory::Model => self.model_mappings@,
            IdCategory::Texture => self.texture_mappings@,
            IdCategory::Sound => self.sound_mappings@,
        }
    }

    /// The new name of `id` in `category`, or `id` itself when it is not renamed.
    pub fn apply_mapping(&self, id: &str, category: IdCategory) -> (r: String)
        ensures
            r@ == mapped_text(self.table(category), id@),
    {
        let found = match category {
            IdCategory::Model => self.model_mappings.get(id),
            IdCategory::Texture => self.texture_mappings.get(id),
            IdCategory::Sound => self.sound_mappings.get(id),
        };
        match found {
            Some(mapped) => mapped.clone(),
            None => id.to_owned(),
        }
    }
}

/// How many times each identifier is referenced from the pack's JSON files.
pub struct IdUsageCounter {
    pub model_counter: StringHashMap<usize>,
    pub texture_counter: StringHashMap<usize>,
    pub sound_counter: StringHashMap<usize>,
}

/// The count stored for `id` in `m`, zero when there is none.
pub open spec fn count_of(m: Map<Seq<char>, usize>, id: Seq<char>) -> usize {
    if m.contains_key(id) {
        m[id]
    } else {
        0
    }
}

/// `m` after one more reference to `id`.
pub open spec fn counted(m: Map<Seq<char>, usize>, id: Seq<char>) -> Map<Seq<char>, usize> {
    m.insert(
        id,
        if count_of(m, id) == usize::MAX {
            0usize
        } else {
            (count_of(m, id) + 1) as usize
        },
    )
}

impl IdUsageCounter {
    pub fn new() -> (r: Self)
        ensures
            r.model_counter@.is_empty(),
            r.texture_counter@.is_empty(),
            r.sound_counter@.is_empty(),
    {
        IdUsageCounter {
            model_counter: StringHashMap::new(),
            texture_counter: StringHashMap::new(),
            sound_counter: StringHashMap::new(),
        }
    }

    pub open spec fn table(&self, category: IdCategory) -> Map<Seq<char>, usize> {
        match category {
            IdCategory::Model => self.model_counter@,
            IdCategory::Texture => self.texture_counter@,
            IdCategory::Sound => self.sound_counter@,
        }
    }

    /// A reference to `id` is counted when `id` is not a vanilla file of its
    /// category: only the pack's own files are renamed, and the most
    /// referenced of them get the shortest names.
    pub open spec fn counts(builtins: &BuiltinFiles, id: Seq<char>, category: IdCategory) -> bool {
        match category {
            IdCategory::Model => !builtins.models@.contains(id),
            IdCategory::Texture => !builtins.textures@.contains(id),
            IdCategory::Sound => !builtins.sounds@.contains(id),
        }
    }

    /// Records one reference to `id` (the count wraps around as an atomic
    /// `fetch_add` does).
    pub fn increment_counter(&mut self, builtins: &BuiltinFiles, id: String, category: IdCategory)
        ensures
            forall|c: IdCategory| c != category ==> final(self).table(c) == old(self).table(c),
            final(self).table(category) == if Self::counts(builtins, id@, category) {
                counted(old(self).table(category), id@)
            } else {
                old(self).table(category)
            },
    {
        match category {
            IdCategory::Model => {
                if !is_in_models(builtins, id.as_str()) {
                    let n = self.get_usage_count(id.as_str(), category);
                    self.model_counter.insert(id, n.wrapping_add(1));
                }
            },
            IdCategory::Texture => {
                if !is_in_textures(builtins, id.as_str()) {
                    let n = self.get_usage_count(id.as_str(), category);
                    self.texture_counter.insert(id, n.wrapping_add(1));
                }
            },
            IdCategory::Sound => {
                if !is_in_sounds(builtins, id.as_str()) {
                    let n = self.get_usage_count(id.as_str(), category);
                    self.sound_counter.insert(id, n.wrapping_add(1));
                }
            },
        }
    }

    /// How many references to `id` were counted.
    pub fn get_usage_count(&self, id: &str, category: IdCategory) -> (r: usize)
        ensures
            r == count_of(self.table(category), id@),
    {
        let found = match category {
            IdCategory::Model => self.model_counter.get(id),
            IdCategory::Texture => self.texture_counter.get(id),
            IdCategory::Sound => self.sound_counter.get(id),
        };
        match found {
            Some(n) => *n,
            None => 0,
        }
    }
}

} // verus!
