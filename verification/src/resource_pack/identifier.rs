//! Namespaced identifiers (`namespace:path`) and the typed references to
//! models, textures and sounds found in JSON files.
use crate::resource_pack::mapping::{IdCategory, IdUsageCounter, Mapping, mapped_text};
use crate::text::{
    chars_of, concat_chars, ends_with, split_once, split_once_chars, string_of, strip_suffix_chars,
    without_suffix,
};
use crate::minecraft::builtin_files::BuiltinFiles;
use vstd::prelude::*;

verus! {

pub open spec fn minecraft_namespace() -> Seq<char> {
    seq!['m', 'i', 'n', 'e', 'c', 'r', 'a', 'f', 't']
}

fn minecraft_chars() -> (r: Vec<char>)
    ensures
        r@ == minecraft_namespace(),
{
    let r = vec!['m', 'i', 'n', 'e', 'c', 'r', 'a', 'f', 't'];
    assert(r@ =~= minecraft_namespace());
    r
}

/// A resource location such as `minecraft:block/stone`.
#[derive(Clone, Debug, Default, PartialEq, Eq)]
pub struct Identifier {
    pub namespace: String,
    pub path: String,
}

/// The text form of an identifier: the bare path in the `minecraft`
/// namespace, `namespace:path` otherwise.
pub open spec fn id_text(namespace: Seq<char>, path: Seq<char>) -> Seq<char> {
    if namespace == minecraft_namespace() {
        path
    } else {
        namespace + seq![':'] + path
    }
}

/// The (namespace, path) that `Identifier::parse` reads from `s`.
pub open spec fn parse_id(s: Seq<char>) -> (Seq<char>, Seq<char>) {
    match split_once(s, ':') {
        Some((namespace, path)) => (namespace, path),
        None => (minecraft_namespace(), s),
    }
}

impl Identifier {
    pub open spec fn parts(&self) -> (Seq<char>, Seq<char>) {
        (self.namespace@, self.path@)
    }

    /// The text form of this identifier.
    pub open spec fn text(&self) -> Seq<char> {
        id_text(self.namespace@, self.path@)
    }

    pub fn new(namespace: &str, path: &str) -> (r: Self)
        ensures
            r.namespace@ == namespace@,
            r.path@ == path@,
    {
        Identifier { namespace: namespace.to_owned(), path: path.to_owned() }
    }

    pub fn from_chars(namespace: &Vec<char>, path: &Vec<char>) -> (r: Self)
        ensures
            r.namespace@ == namespace@,
            r.path@ == path@,
    {
        Identifier { namespace: string_of(namespace), path: string_of(path) }
    }

    /// A copy of this identifier.
    pub fn copy(&self) -> (r: Self)
        ensures
            r.parts() == self.parts(),
    {
        Self::new(self.namespace.as_str(), self.path.as_str())
    }

    /// Reads `namespace:path`; without a `:` the namespace is `minecraft`.
    pub fn parse(identifier: &str) -> (r: Self)
        ensures
            r.parts() == parse_id(identifier@),
    {
        let s = chars_of(identifier);
        match split_once_chars(&s, ':') {
            Some((namespace, path)) => Self::from_chars(&namespace, &path),
            None => Self::from_chars(&minecraft_chars(), &s),
        }
    }

    /// The text form: the bare path in the `minecraft` namespace,
    /// `namespace:path` otherwise.
    pub fn to_string(&self) -> (r: String)
        ensures
            r@ == self.text(),
    {
        let ns = chars_of(self.namespace.as_str());
        let path = chars_of(self.path.as_str());
        if crate::text::chars_eq(&ns, &minecraft_chars()) {
            string_of(&path)
        } else {
            let with_colon = concat_chars(&ns, &vec![':']);
            string_of(&concat_chars(&with_colon, &path))
        }
    }
}

/// `Identifier::parse` of what `Identifier::to_string` writes gives back the
/// identifier's namespace and path, when neither holds a `:`.
pub proof fn identifier_parse_round_trip(id: Identifier)
    requires
        !id.namespace@.contains(':'),
        !id.path@.contains(':'),
    ensures
        parse_id(id.text()) == id.parts(),
{
    identifier_text_round_trip(id.namespace@, id.path@);
}

/// Writing an identifier and reading it back gives the same identifier,
/// when the namespace holds no `:` and, in the `minecraft` namespace (which is
/// written without its prefix), the path holds no `:` either.
pub proof fn identifier_text_round_trip(namespace: Seq<char>, path: Seq<char>)
    requires
        !namespace.contains(':'),
        namespace == minecraft_namespace() ==> !path.contains(':'),
    ensures
        parse_id(id_text(namespace, path)) == (namespace, path),
{
    let t = id_text(namespace, path);
    if namespace == minecraft_namespace() {
        crate::text::lemma_first_index_of(t, ':');
        if crate::text::first_index_of(t, ':') is Some {
            let i = crate::text::first_index_of(t, ':')->0;
            assert(path.contains(':')) by {
                assert(path[i] == ':');
            }
        }
    } else {
        crate::text::lemma_first_index_of(t, ':');
        assert(t[namespace.len() as int] == ':');
        assert forall|j: int| 0 <= j < namespace.len() implies t[j] != ':' by {
            assert(t[j] == namespace[j]);
            if t[j] == ':' {
                assert(namespace.contains(':'));
            }
        }
        crate::text::lemma_first_index_of_char(t, ':', namespace.len() as int);
        assert(t.subrange(0, namespace.len() as int) =~= namespace);
        assert(t.subrange(namespace.len() + 1int, t.len() as int) =~= path);
    }
}

pub open spec fn png_suffix() -> Seq<char> {
    seq!['.', 'p', 'n', 'g']
}

fn png_suffix_chars() -> (r: Vec<char>)
    ensures
        r@ == png_suffix(),
{
    let r = vec!['.', 'p', 'n', 'g'];
    assert(r@ =~= png_suffix());
    r
}

/// A reference to a texture, written without extension.
#[derive(Clone, Debug, PartialEq, Eq)]
pub struct TextureId(pub Identifier);

/// A reference to a texture, written with its `.png` extension.
#[derive(Clone, Debug, PartialEq, Eq)]
pub struct TextureIdWithExt(pub Identifier);

/// A reference to a model.
#[derive(Clone, Debug, PartialEq, Eq)]
pub struct ModelId(pub Identifier);

/// A reference to a sound event file.
#[derive(Clone, Debug, PartialEq, Eq)]
pub struct SoundId(pub Identifier);

/// Reads a reference from its JSON text and records it in `counter`.
fn read_reference(
    text: &Vec<char>,
    category: IdCategory,
    counter: &mut IdUsageCounter,
    builtins: &BuiltinFiles,
) -> (r: Identifier)
    ensures
        r.parts() == parse_id(text@),
        forall|c: IdCategory| c != category ==> final(counter).table(c) == old(counter).table(c),
        final(counter).table(category) == if IdUsageCounter::counts(builtins, r.text(), category) {
            crate::resource_pack::mapping::counted(old(counter).table(category), r.text())
        } else {
            old(counter).table(category)
        },
{
    let id = Identifier::parse(string_of(text).as_str());
    counter.increment_counter(builtins, id.to_string(), category);
    id
}

impl TextureId {
    /// The JSON text of this reference after renaming by `mapping`.
    pub fn to_string(&self, mapping: &Mapping) -> (r: String)
        ensures
            r@ == mapped_text(mapping.table(IdCategory::Texture), self.0.text()),
    {
        mapping.apply_mapping(self.0.to_string().as_str(), IdCategory::Texture)
    }

    /// Reads a reference from its JSON text, counting it in `counter`.
    pub fn from_text(text: &str, counter: &mut IdUsageCounter, builtins: &BuiltinFiles) -> (r: Self)
        ensures
            r.0.parts() == parse_id(text@),
            forall|c: IdCategory| c != IdCategory::Texture ==> final(counter).table(c) == old(counter).table(c),
            final(counter).table(IdCategory::Texture) == if IdUsageCounter::counts(builtins, r.0.text(), IdCategory::Texture) {
                crate::resource_pack::mapping::counted(old(counter).table(IdCategory::Texture), r.0.text())
            } else {
                old(counter).table(IdCategory::Texture)
            },
    {
        TextureId(read_reference(&chars_of(text), IdCategory::Texture, counter, builtins))
    }
}

impl TextureIdWithExt {
    /// The JSON text of this reference after renaming by `mapping`, with `.png`.
    pub fn to_string(&self, mapping: &Mapping) -> (r: String)
        ensures
            r@ == mapped_text(mapping.table(IdCategory::Texture), self.0.text()) + png_suffix(),
    {
        let mapped = chars_of(mapping.apply_mapping(self.0.to_string().as_str(), IdCategory::Texture).as_str());
        string_of(&concat_chars(&mapped, &png_suffix_chars()))
    }

    /// Reads a reference from its JSON text (a trailing `.png` is dropped),
    /// counting it in `counter`.
    pub fn from_text(text: &str, counter: &mut IdUsageCounter, builtins: &BuiltinFiles) -> (r: Self)
        ensures
            r.0.parts() == parse_id(without_suffix(text@, png_suffix())),
            forall|c: IdCategory| c != IdCategory::Texture ==> final(counter).table(c) == old(counter).table(c),
            final(counter).table(IdCategory::Texture) == if IdUsageCounter::counts(builtins, r.0.text(), IdCategory::Texture) {
                crate::resource_pack::mapping::counted(old(counter).table(IdCategory::Texture), r.0.text())
            } else {
                old(counter).table(IdCategory::Texture)
            },
    {
        let stripped = strip_suffix_chars(&chars_of(text), &png_suffix_chars());
        TextureIdWithExt(read_reference(&stripped, IdCategory::Texture, counter, builtins))
    }
}

impl ModelId {
    /// The JSON text of this reference after renaming by `mapping`.
    pub fn to_string(&self, mapping: &Mapping) -> (r: String)
        ensures
            r@ == mapped_text(mapping.table(IdCategory::Model), self.0.text()),
    {
        mapping.apply_mapping(self.0.to_string().as_str(), IdCategory::Model)
    }

    /// Reads a reference from its JSON text, counting it in `counter`.
    pub fn from_text(text: &str, counter: &mut IdUsageCounter, builtins: &BuiltinFiles) -> (r: Self)
        ensures
            r.0.parts() == parse_id(text@),
            forall|c: IdCategory| c != IdCategory::Model ==> final(counter).table(c) == old(counter).table(c),
            final(counter).table(IdCategory::Model) == if IdUsageCounter::counts(builtins, r.0.text(), IdCategory::Model) {
                crate::resource_pack::mapping::counted(old(counter).table(IdCategory::Model), r.0.text())
            } else {
                old(counter).table(IdCategory::Model)
            },
    {
        ModelId(read_reference(&chars_of(text), IdCategory::Model, counter, builtins))
    }
}

impl SoundId {
    /// The JSON text of this reference after renaming by `mapping`.
    pub fn to_string(&self, mapping: &Mapping) -> (r: String)
        ensures
            r@ == mapped_text(mapping.table(IdCategory::Sound), self.0.text()),
    {
        mapping.apply_mapping(self.0.to_string().as_str(), IdCategory::Sound)
    }

    /// Reads a reference from its JSON text, counting it in `counter`.
    pub fn from_text(text: &str, counter: &mut IdUsageCounter, builtins: &BuiltinFiles) -> (r: Self)
        ensures
            r.0.parts() == parse_id(text@),
            forall|c: IdCategory| c != IdCategory::Sound ==> final(counter).table(c) == old(counter).table(c),
            final(counter).table(IdCategory::Sound) == if IdUsageCounter::counts(builtins, r.0.text(), IdCategory::Sound) {
                crate::resource_pack::mapping::counted(old(counter).table(IdCategory::Sound), r.0.text())
            } else {
                old(counter).table(IdCategory::Sound)
            },
    {
        SoundId(read_reference(&chars_of(text), IdCategory::Sound, counter, builtins))
    }
}

/// A texture reference written with its extension and read back, with no
/// renaming in between, is the same reference (under the conditions of
/// `identifier_text_round_trip`).
pub proof fn texture_reference_round_trip(namespace: Seq<char>, path: Seq<char>)
    requires
        !namespace.contains(':'),
        namespace == minecraft_namespace() ==> !path.contains(':'),
    ensures
        parse_id(without_suffix(id_text(namespace, path) + png_suffix(), png_suffix())) == (namespace, path),
{
    let t = id_text(namespace, path);
    let w = t + png_suffix();
    assert(w.subrange(w.len() - 4, w.len() as int) =~= png_suffix());
    assert(w.subrange(0, w.len() - 4) =~= t);
    identifier_text_round_trip(namespace, path);
}

} // verus!
