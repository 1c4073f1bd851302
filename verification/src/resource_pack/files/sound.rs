//! Sounds stored under `assets/<namespace>/sounds/`.
use crate::resource_pack::files::asset_path::{asset_file_path, asset_path_text};
use crate::resource_pack::identifier::Identifier;
use crate::cache::{Cache, Compression as CachedCompression, ItemType, VERSION, index_of_key, upsert};
use crate::digest::{sha256, sha256_of};
use crate::text::{join3, string_of};
use crate::{LogLevel, LogMessage};
use optivorbis::Remuxer;
use vstd::prelude::*;

verus! {

/// What OptiVorbis gives for `data`: the Ogg Vorbis stream it remuxes the
/// data into (stream serials from zero, vendor string emptied, comments
/// deleted), or the text of the error it reports.
pub uninterp spec fn optivorbis_result(data: Seq<u8>) -> Result<Seq<u8>, Seq<char>>;

/// `optivorbis::OggToOgg::remux` with sequential stream serials, the start
/// sample offset ignored, page checksums verified, an empty vendor string and
/// no comments. Claimed: the result (the stream, or the error's text) is
/// `optivorbis_result(data)`; which inputs fail is not stated.
#[verifier::external_body]
fn optivorbis_remux(data: &[u8]) -> (r: Result<Vec<u8>, String>)
    ensures
        match r {
            Ok(v) => optivorbis_result(data@) == Ok::<Seq<u8>, Seq<char>>(v@),
            Err(e) => optivorbis_result(data@) == Err::<Seq<u8>, Seq<char>>(e@),
        },
{
    let settings = optivorbis::remuxer::ogg_to_ogg::Settings {
        randomize_stream_serials: false,
        first_stream_serial_offset: 0,
        ignore_start_sample_offset: true,
        error_on_no_vorbis_streams: true,
        verify_ogg_page_checksums: true,
        vorbis_stream_mangler: optivorbis::remuxer::ogg_to_ogg::OggVorbisStreamPassthroughMangler,
    };
    let mut optimizer = optivorbis::VorbisOptimizerSettings::default();
    optimizer.vendor_string_action = optivorbis::VorbisVendorStringAction::Empty;
    optimizer.comment_fields_action = optivorbis::VorbisCommentFieldsAction::Delete;
    match optivorbis::OggToOgg::new(settings, optimizer).remux(std::io::Cursor::new(data), Vec::new()) {
        Ok(v) => Ok(v),
        Err(e) => Err(e.to_string()),
    }
}

/// The cached result for a sound with these bytes, if any.
pub open spec fn sound_cache_hit(bytes: Seq<u8>, cache: Option<Cache>) -> Option<Seq<u8>> {
    match cache {
        Some(c) => match index_of_key(c.entries(), (sha256_of(bytes), ItemType::Sound)) {
            Some(i) => Some(c.entries()[i].4),
            None => None,
        },
        None => None,
    }
}

pub open spec fn sounds_dir() -> Seq<char> {
    seq!['s', 'o', 'u', 'n', 'd', 's']
}

pub open spec fn ogg_ext() -> Seq<char> {
    seq!['o', 'g', 'g']
}

#[derive(Clone, Debug)]
pub struct Sound {
    pub overlay: String,
    pub identifier: Identifier,
    pub bytes: Vec<u8>,
}

impl Sound {
    pub fn new(overlay: &str, identifier: Identifier, bytes: Vec<u8>) -> (r: Self)
        ensures
            r.overlay@ == overlay@,
            r.identifier == identifier,
            r.bytes@ == bytes@,
    {
        Sound { overlay: overlay.to_owned(), identifier, bytes }
    }

    pub open spec fn path_text(&self) -> Seq<char> {
        asset_path_text(self.overlay@, self.identifier.namespace@, sounds_dir(), self.identifier.path@, ogg_ext())
    }

    /// `[overlay/]assets/<namespace>/sounds/<path>.ogg`
    pub fn path(&self) -> (r: String)
        ensures
            r@ == self.path_text(),
    {
        let kind = string_of(&vec!['s', 'o', 'u', 'n', 'd', 's']);
        let ext = string_of(&vec!['o', 'g', 'g']);
        assert(kind@ =~= sounds_dir());
        assert(ext@ =~= ogg_ext());
        asset_file_path(self.overlay.as_str(), &self.identifier, kind.as_str(), ext.as_str())
    }

    /// Optimizes the sound: from the cache when it holds a result for these
    /// bytes, else with OptiVorbis (recording the result in the cache), else
    /// unchanged with a warning.
    pub fn optimize(&mut self, cache: &mut Option<Cache>) -> (r: Option<LogMessage>)
        ensures
            (*final(cache)) is Some <==> (*old(cache)) is Some,
            final(self).overlay == old(self).overlay,
            final(self).identifier == old(self).identifier,
            match sound_cache_hit(old(self).bytes@, *old(cache)) {
                Some(data) => {
                    &&& final(self).bytes@ == data
                    &&& *final(cache) == *old(cache)
                    &&& r matches Some(l) && l.level == LogLevel::Info && l.message@ == "Sound '"@
                        + old(self).path_text() + "' was loaded from cache."@
                },
                None => match optivorbis_result(old(self).bytes@) {
                    Ok(v) => final(self).bytes@ == v && r is None && match *old(cache) {
                        Some(c) => (*final(cache))->0.entries() == upsert(
                            c.entries(),
                            (sha256_of(old(self).bytes@), ItemType::Sound, CachedCompression::Fastest, VERSION, v),
                        ),
                        None => true,
                    },
                    Err(e) => {
                        &&& final(self).bytes@ == old(self).bytes@
                        &&& *final(cache) == *old(cache)
                        &&& r matches Some(l) && l.level == LogLevel::Warning && l.message@
                            == "Could not optimize sound '"@ + old(self).path_text()
                            + "'. Skipping optimization. Error: "@ + e
                    },
                },
            },
    {
        match cache {
            Some(c) => {
                let hash = sha256(self.bytes.as_slice());
                match c.get(&hash, ItemType::Sound) {
                    Some(item) => {
                        self.bytes = item.data.clone();
                        let message = join3("Sound '", self.path().as_str(), "' was loaded from cache.");
                        proof {
                            reveal_strlit("Sound '");
                            reveal_strlit("' was loaded from cache.");
                        }
                        return Some(LogMessage { level: LogLevel::Info, message });
                    },
                    None => {},
                }
            },
            None => {},
        }
        match optivorbis_remux(self.bytes.as_slice()) {
            Ok(out) => {
                match cache {
                    Some(c) => {
                        c.add_item(self.bytes.as_slice(), out.clone(), 0, ItemType::Sound);
                    },
                    None => {},
                }
                self.bytes = out;
                None
            },
            Err(e) => {
                let head = join3("Could not optimize sound '", self.path().as_str(), "'. Skipping optimization. Error: ");
                let message = join3(head.as_str(), e.as_str(), "");
                proof {
                    reveal_strlit("");
                    assert(message@ =~= head@ + e@);
                }
                Some(LogMessage { level: LogLevel::Warning, message })
            },
        }
    }
}

} // verus!
