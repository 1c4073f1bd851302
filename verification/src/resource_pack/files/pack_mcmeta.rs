//! `pack.mcmeta`: the pack description and its overlay declarations.
use vstd::prelude::*;

verus! {

/// A pack format version: a bare major number, or major and minor.
#[derive(Clone, Copy, Debug, PartialEq, Eq)]
pub enum PackVersion {
    Integer(i32),
    Decimal([i32; 2]),
}

/// The pack formats an overlay applies to.
#[derive(Clone, Copy, Debug, PartialEq, Eq)]
pub enum FormatRange {
    /// Exactly this major format.
    Int(i32),
    /// From the first to the second major format, both included.
    List([i32; 2]),
    /// From `min_inclusive` to `max_inclusive`.
    Object { min_inclusive: PackVersion, max_inclusive: PackVersion },
}

/// One declared overlay directory and the formats it is for.
#[derive(Clone, Debug)]
pub struct OverlayEntry {
    pub directory: String,
    pub min_format: Option<PackVersion>,
    pub max_format: Option<PackVersion>,
    pub formats: Option<FormatRange>,
}

/// The `overlays` section of `pack.mcmeta`.
#[derive(Clone, Debug)]
pub struct Overlay {
    pub entries: Option<Vec<OverlayEntry>>,
}

/// The parts of `pack.mcmeta` that the optimizer reads and changes.
#[derive(Clone, Debug)]
pub struct PackMcmeta {
    pub overlays: Option<Overlay>,
}

impl PackMcmeta {
    /// Where the file lives in the archive.
    pub fn path(&self) -> (r: String)
        ensures
            r@ == "pack.mcmeta"@,
    {
        "pack.mcmeta".to_owned()
    }
}

} // verus!
