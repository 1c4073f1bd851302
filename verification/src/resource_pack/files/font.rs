//! Font definitions: the parts the optimizer reads or leaves out.
use crate::version::{MinecraftVersion, is_older_than, older_than};
use vstd::prelude::*;

verus! {

/// The font variants a provider is limited to.
#[derive(Clone, Copy, Debug, PartialEq, Eq, Structural)]
pub struct FontFilter {
    pub uniform: Option<bool>,
    pub jp: Option<bool>,
}

/// A range of characters of a unihex font with its own width.
#[derive(Clone, Debug)]
pub struct HexSizeOverride {
    pub from: String,
    pub to: String,
    pub left: i32,
    pub right: i32,
}

/// The characters a TrueType font leaves out: one string, or a list.
#[derive(Clone, Debug)]
pub enum TtfSkip {
    Single(String),
    Multiple(Vec<String>),
}

/// The ascent of a bitmap provider that does not give one.
pub fn default_ascent() -> (r: i32)
    ensures
        r == 7,
{
    7
}

/// The height of a bitmap provider that does not give one.
pub fn default_height() -> (r: i32)
    ensures
        r == 8,
{
    8
}

/// A unihex filter is left out when there is none or when the target
/// version (pack format `target`, 0 for none) predates it.
pub fn is_none_or_older_than_26_1<T>(value: &Option<T>, target: u8) -> (r: bool)
    ensures
        r == (value is None || older_than(target, MinecraftVersion::V26_1)),
{
    value.is_none() || is_older_than(target, MinecraftVersion::V26_1)
}

/// Unihex size overrides are left out when there are none or when the
/// target version predates them.
pub fn is_empty_or_older_than_26_1<T>(value: &[T], target: u8) -> (r: bool)
    ensures
        r == (value@.len() == 0 || older_than(target, MinecraftVersion::V26_1)),
{
    value.len() == 0 || is_older_than(target, MinecraftVersion::V26_1)
}

} // verus!
