//! PNG files outside `textures/` (such as `pack.png`).
use crate::cache::Cache;
use crate::options::Options;
use crate::resource_pack::files::texture::{image_message, Texture, image_outcome};
use crate::{LogLevel, LogMessage};
use vstd::prelude::*;

verus! {

#[derive(Clone, Debug)]
pub struct UnknownTexture {
    pub path: String,
    pub texture: Texture,
}

impl UnknownTexture {
    pub fn new(path: &str, bytes: Vec<u8>) -> (r: Self)
        ensures
            r.path@ == path@,
            r.texture.bytes@ == bytes@,
    {
        UnknownTexture { path: path.to_owned(), texture: Texture::new(bytes) }
    }

    /// Optimizes the image (see `Texture::optimize`), named by its path in
    /// the log message.
    pub fn optimize(self, options: &Options, cache: &mut Option<Cache>) -> (r: (Vec<u8>, Option<LogMessage>))
        ensures
            image_outcome(self.texture.bytes@, *options, *old(cache), *final(cache), r.0@),
            match image_message(self.texture.bytes@, *options, *old(cache), self.path@) {
                Some(m) => r.1 matches Some(l) && l.level == LogLevel::Info && l.message@ == m,
                None => r.1 is None,
            },
    {
        let path = self.path.clone();
        self.texture.optimize(options, cache, path.as_str())
    }
}

} // verus!
