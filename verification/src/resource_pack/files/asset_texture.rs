//! Textures stored under `assets/<namespace>/textures/`.
use crate::resource_pack::files::asset_path::{asset_file_path, asset_path_text};
use crate::cache::Cache;
use crate::options::Options;
use crate::resource_pack::files::texture::{image_message, Texture, image_outcome};
use crate::{LogLevel, LogMessage};
use crate::resource_pack::identifier::Identifier;
use crate::text::string_of;
use vstd::prelude::*;

verus! {

pub open spec fn textures_dir() -> Seq<char> {
    seq!['t', 'e', 'x', 't', 'u', 'r', 'e', 's']
}

pub open spec fn png_ext() -> Seq<char> {
    seq!['p', 'n', 'g']
}

/// A texture that models, items and fonts can reference.
#[derive(Clone, Debug)]
pub struct AssetTexture {
    pub overlay: String,
    pub identifier: Identifier,
    pub texture: Texture,
}

impl AssetTexture {
    pub fn new(overlay: &str, identifier: Identifier, bytes: Vec<u8>) -> (r: Self)
        ensures
            r.overlay@ == overlay@,
            r.identifier == identifier,
            r.texture.bytes@ == bytes@,
    {
        AssetTexture { overlay: overlay.to_owned(), identifier, texture: Texture::new(bytes) }
    }

    /// `[overlay/]assets/<namespace>/textures/<path>.png`
    pub fn path(&self) -> (r: String)
        ensures
            r@ == asset_path_text(
                self.overlay@,
                self.identifier.namespace@,
                textures_dir(),
                self.identifier.path@,
                png_ext(),
            ),
    {
        let kind = string_of(&vec!['t', 'e', 'x', 't', 'u', 'r', 'e', 's']);
        let ext = string_of(&vec!['p', 'n', 'g']);
        assert(kind@ =~= textures_dir());
        assert(ext@ =~= png_ext());
        asset_file_path(self.overlay.as_str(), &self.identifier, kind.as_str(), ext.as_str())
    }

    /// Optimizes the image (see `Texture::optimize`), named by its path in
    /// the log message.
    pub fn optimize(self, options: &Options, cache: &mut Option<Cache>) -> (r: (Vec<u8>, Option<LogMessage>))
        ensures
            image_outcome(self.texture.bytes@, *options, *old(cache), *final(cache), r.0@),
            match image_message(self.texture.bytes@, *options, *old(cache), asset_path_text(self.overlay@, self.identifier.namespace@, textures_dir(), self.identifier.path@, png_ext())) {
                Some(m) => r.1 matches Some(l) && l.level == LogLevel::Info && l.message@ == m,
                None => r.1 is None,
            },
    {
        let path = self.path();
        self.texture.optimize(options, cache, path.as_str())
    }
}

} // verus!
