pub mod text;
pub mod png;
pub mod minecraft;
pub mod resource_pack;
pub mod file_parser;
pub mod digest;
pub mod cache;
pub mod deflate;
pub mod options;
pub mod json;
pub mod optimized_zip_writer;
pub mod pipeline;
pub mod zip_reader;
pub mod renamer;
pub mod version;
pub mod overlay_remover;
pub mod shader_minifier;
pub mod usage_checker;
pub mod profiler;

use crate::resource_pack::identifier::Identifier;
use crate::text::{
    chars_of, nth_part, nth_part_chars, rsplit_once, rsplit_once_chars, split_once, split_once_chars,
    starts_with, starts_with_chars, string_of,
};
use vstd::prelude::*;

verus! {

pub open spec fn assets_prefix() -> Seq<char> {
    seq!['a', 's', 's', 'e', 't', 's', '/']
}

pub open spec fn assets_dir() -> Seq<char> {
    seq!['a', 's', 's', 'e', 't', 's']
}

/// The asset type (`textures`, `models`, ...) of a path in the pack, for paths
/// under `assets/` and under `<overlay>/assets/`.
pub open spec fn type_of_path(path: Seq<char>) -> Option<Seq<char>> {
    if starts_with(path, assets_prefix()) {
        nth_part(path, '/', 2)
    } else if nth_part(path, '/', 1) == Some(assets_dir()) {
        nth_part(path, '/', 3)
    } else {
        None
    }
}

/// The overlay directory of a path and the remainder that starts at `assets/`.
pub open spec fn overlay_split(path: Seq<char>) -> (Seq<char>, Seq<char>) {
    if starts_with(path, assets_prefix()) {
        (Seq::empty(), path)
    } else {
        match split_once(path, '/') {
            Some((overlay, rem)) => (overlay, rem),
            None => (path, Seq::empty()),
        }
    }
}

/// The namespace and the path (after the type directory) of `assets/<ns>/<type>/<rest>`.
pub open spec fn namespace_and_rest(rem: Seq<char>) -> (Seq<char>, Seq<char>) {
    match split_once(rem, '/') {
        None => (Seq::empty(), Seq::empty()),
        Some((_, r1)) => match split_once(r1, '/') {
            None => (r1, Seq::empty()),
            Some((namespace, r2)) => match split_once(r2, '/') {
                None => (namespace, Seq::empty()),
                Some((_, rest)) => (namespace, rest),
            },
        },
    }
}

/// `s` without its last extension.
pub open spec fn without_extension(s: Seq<char>) -> Seq<char> {
    match rsplit_once(s, '.') {
        Some((stem, _)) => stem,
        None => s,
    }
}

/// What `parse_path` reads from a path: the overlay and the identifier
/// (namespace, path without extension).
pub open spec fn parsed_path(path: Seq<char>) -> (Seq<char>, (Seq<char>, Seq<char>)) {
    let (overlay, rem) = overlay_split(path);
    let (namespace, rest) = namespace_and_rest(rem);
    (overlay, (namespace, without_extension(rest)))
}

fn assets_prefix_chars() -> (r: Vec<char>)
    ensures
        r@ == assets_prefix(),
{
    let r = vec!['a', 's', 's', 'e', 't', 's', '/'];
    assert(r@ =~= assets_prefix());
    r
}

/// The asset type of a path: `textures` for
/// `assets/minecraft/textures/block/stone.png` and for
/// `overlay/assets/minecraft/textures/block/stone.png`.
pub fn get_type(path: &str) -> (r: Option<String>)
    ensures
        match r {
            Some(t) => type_of_path(path@) == Some(t@),
            None => type_of_path(path@) == None::<Seq<char>>,
        },
{
    let p = chars_of(path);
    if starts_with_chars(&p, &assets_prefix_chars()) {
        match nth_part_chars(&p, '/', 2) {
            Some(t) => Some(string_of(&t)),
            None => None,
        }
    } else {
        let assets = vec!['a', 's', 's', 'e', 't', 's'];
        assert(assets@ =~= assets_dir());
        match nth_part_chars(&p, '/', 1) {
            Some(second) => {
                if crate::text::chars_eq(&second, &assets) {
                    match nth_part_chars(&p, '/', 3) {
                        Some(t) => Some(string_of(&t)),
                        None => None,
                    }
                } else {
                    None
                }
            },
            None => None,
        }
    }
}

/// Splits a path of the pack into its overlay (empty outside overlays) and
/// the identifier of the asset (namespace and path without extension).
pub fn parse_path(path: &str) -> (r: (String, Identifier))
    ensures
        (r.0@, r.1.parts()) == parsed_path(path@),
{
    let p = chars_of(path);
    let (overlay, rem) = if starts_with_chars(&p, &assets_prefix_chars()) {
        (Vec::new(), p)
    } else {
        match split_once_chars(&p, '/') {
            Some((o, r)) => (o, r),
            None => (p, Vec::new()),
        }
    };
    let (namespace, rest): (Vec<char>, Vec<char>) = match split_once_chars(&rem, '/') {
        None => (Vec::new(), Vec::new()),
        Some((_, r1)) => match split_once_chars(&r1, '/') {
            None => (r1, Vec::new()),
            Some((ns, r2)) => match split_once_chars(&r2, '/') {
                None => (ns, Vec::new()),
                Some((_, rest)) => (ns, rest),
            },
        },
    };
    let stem = match rsplit_once_chars(&rest, '.') {
        Some((stem, _)) => stem,
        None => rest,
    };
    (string_of(&overlay), Identifier::from_chars(&namespace, &stem))
}

/// How serious a log message is.
#[derive(Clone, Copy, Debug, PartialEq, Eq, Structural)]
pub enum LogLevel {
    Info,
    Warning,
    Error,
}

impl LogLevel {
    pub open spec fn rank(self) -> u8 {
        match self {
            LogLevel::Info => 0,
            LogLevel::Warning => 1,
            LogLevel::Error => 2,
        }
    }

    /// 0 for `Info`, 1 for `Warning`, 2 for `Error`.
    pub fn to_u8(self) -> (r: u8)
        ensures
            r == self.rank(),
    {
        match self {
            LogLevel::Info => 0,
            LogLevel::Warning => 1,
            LogLevel::Error => 2,
        }
    }
}

#[derive(Clone, Debug)]
pub struct LogMessage {
    pub level: LogLevel,
    pub message: String,
}

/// The least serious level of the messages to show (`Silent` shows none).
#[derive(Clone, Copy, Debug, PartialEq, Eq, Structural)]
pub enum LogFilter {
    Info,
    Warning,
    Error,
    Silent,
}

impl LogFilter {
    pub open spec fn rank(self) -> u8 {
        match self {
            LogFilter::Info => 0,
            LogFilter::Warning => 1,
            LogFilter::Error => 2,
            LogFilter::Silent => 3,
        }
    }

    /// A message of `log_level` passes this filter.
    pub fn is_valid(&self, log_level: &LogLevel) -> (r: bool)
        ensures
            r == (log_level.rank() >= self.rank()),
    {
        let filter: u8 = match self {
            LogFilter::Info => 0,
            LogFilter::Warning => 1,
            LogFilter::Error => 2,
            LogFilter::Silent => 3,
        };
        log_level.to_u8() >= filter
    }
}

/// Every message passes the `Info` filter and none passes `Silent`; a more
/// serious message passes whatever a less serious one passes.
pub proof fn log_filter_is_monotone(filter: LogFilter, a: LogLevel, b: LogLevel)
    ensures
        a.rank() >= LogFilter::Info.rank(),
        !(a.rank() >= LogFilter::Silent.rank()),
        a.rank() <= b.rank() && a.rank() >= filter.rank() ==> b.rank() >= filter.rank(),
{
}

/// Where the optimizer is.
#[derive(Clone, Debug)]
#[allow(inconsistent_fields)]
pub enum Progress {
    Idle,
    ReadingZip { current: u32, total: u32 },
    Parsing { current: String },
    Optimizing { current: String, index: u32, total: u32 },
    Building { current: String, index: u32, total: u32 },
    Done,
}

} // verus!
