//! Minecraft versions, by resource pack format, and the checks that decide
//! which JSON fields a target version knows.
//!
//! A target of 0 means "no target version": every field is kept.
use vstd::prelude::*;

verus! {

#[derive(Clone, Debug, Copy, PartialEq, Eq, Structural)]
pub enum MinecraftVersion {
    V1_21_1,
    V1_21_2,
    V1_21_4,
    V1_21_5,
    V1_21_6,
    V1_21_7,
    V1_21_9,
    V1_21_11,
    V26_1,
    V26_2,
}

impl MinecraftVersion {
    pub open spec fn format(self) -> u8 {
        match self {
            MinecraftVersion::V1_21_1 => 34,
            MinecraftVersion::V1_21_2 => 42,
            MinecraftVersion::V1_21_4 => 46,
            MinecraftVersion::V1_21_5 => 55,
            MinecraftVersion::V1_21_6 => 63,
            MinecraftVersion::V1_21_7 => 64,
            MinecraftVersion::V1_21_9 => 69,
            MinecraftVersion::V1_21_11 => 75,
            MinecraftVersion::V26_1 => 84,
            MinecraftVersion::V26_2 => 88,
        }
    }

    /// The resource pack format of this version.
    pub fn pack_format(self) -> (r: u8)
        ensures
            r == self.format(),
    {
        match self {
            MinecraftVersion::V1_21_1 => 34,
            MinecraftVersion::V1_21_2 => 42,
            MinecraftVersion::V1_21_4 => 46,
            MinecraftVersion::V1_21_5 => 55,
            MinecraftVersion::V1_21_6 => 63,
            MinecraftVersion::V1_21_7 => 64,
            MinecraftVersion::V1_21_9 => 69,
            MinecraftVersion::V1_21_11 => 75,
            MinecraftVersion::V26_1 => 84,
            MinecraftVersion::V26_2 => 88,
        }
    }
}

/// A target version is set and is older than `v`.
pub open spec fn older_than(target: u8, v: MinecraftVersion) -> bool {
    target != 0 && target < v.format()
}

/// The target version is newer than `v` (never, without a target).
pub open spec fn newer_than(target: u8, v: MinecraftVersion) -> bool {
    target > v.format()
}

/// A target of format `target` (0: none) is older than `v`.
pub fn is_older_than(target: u8, v: MinecraftVersion) -> (r: bool)
    ensures
        r == older_than(target, v),
{
    target != 0 && target < v.pack_format()
}

/// A target of format `target` is newer than `v`.
pub fn is_newer_than(target: u8, v: MinecraftVersion) -> (r: bool)
    ensures
        r == newer_than(target, v),
{
    target > v.pack_format()
}

pub fn is_older_than_1_21_4(target: u8) -> (r: bool)
    ensures
        r == older_than(target, MinecraftVersion::V1_21_4),
{
    is_older_than(target, MinecraftVersion::V1_21_4)
}

pub fn is_older_than_1_21_6(target: u8) -> (r: bool)
    ensures
        r == older_than(target, MinecraftVersion::V1_21_6),
{
    is_older_than(target, MinecraftVersion::V1_21_6)
}

pub fn is_older_than_1_21_11(target: u8) -> (r: bool)
    ensures
        r == older_than(target, MinecraftVersion::V1_21_11),
{
    is_older_than(target, MinecraftVersion::V1_21_11)
}

pub fn is_older_than_26_1(target: u8) -> (r: bool)
    ensures
        r == older_than(target, MinecraftVersion::V26_1),
{
    is_older_than(target, MinecraftVersion::V26_1)
}

pub fn is_newer_than_26_1(target: u8) -> (r: bool)
    ensures
        r == newer_than(target, MinecraftVersion::V26_1),
{
    is_newer_than(target, MinecraftVersion::V26_1)
}

/// A target version is set and lies strictly between 26.2 and 26.1 (which,
/// as written, no version does: the check is always false).
pub fn is_not_between_26_1_and_26_2(target: u8) -> (r: bool)
    ensures
        r == (target != 0 && target < MinecraftVersion::V26_1.format() && target
            > MinecraftVersion::V26_2.format()),
{
    target != 0 && target < MinecraftVersion::V26_1.pack_format() && target
        > MinecraftVersion::V26_2.pack_format()
}

/// Without a target version no field is dropped as too new or too old.
pub proof fn no_target_keeps_everything(v: MinecraftVersion)
    ensures
        !older_than(0, v),
        !newer_than(0, v),
{
}

/// Pack formats grow with the Minecraft version: the versions, in release
/// order, have strictly increasing formats.
pub proof fn formats_follow_releases()
    ensures
        MinecraftVersion::V1_21_1.format() < MinecraftVersion::V1_21_2.format(),
        MinecraftVersion::V1_21_2.format() < MinecraftVersion::V1_21_4.format(),
        MinecraftVersion::V1_21_4.format() < MinecraftVersion::V1_21_5.format(),
        MinecraftVersion::V1_21_5.format() < MinecraftVersion::V1_21_6.format(),
        MinecraftVersion::V1_21_6.format() < MinecraftVersion::V1_21_7.format(),
        MinecraftVersion::V1_21_7.format() < MinecraftVersion::V1_21_9.format(),
        MinecraftVersion::V1_21_9.format() < MinecraftVersion::V1_21_11.format(),
        MinecraftVersion::V1_21_11.format() < MinecraftVersion::V26_1.format(),
        MinecraftVersion::V26_1.format() < MinecraftVersion::V26_2.format(),
        forall|v: MinecraftVersion| #[trigger] v.format() > 0,
{
}

/// A set target is older than a version exactly when its format is lower; a
/// target older than one version is older than every later one, and a target
/// is never both older and newer than a version. A version's own format is
/// neither older nor newer than it.
pub proof fn version_comparisons(target: u8, v: MinecraftVersion, w: MinecraftVersion)
    ensures
        target != 0 ==> (older_than(target, v) <==> target < v.format()),
        older_than(target, v) && v.format() <= w.format() ==> older_than(target, w),
        newer_than(target, w) && v.format() <= w.format() ==> newer_than(target, v),
        !(older_than(target, v) && newer_than(target, v)),
        !older_than(v.format(), v) && !newer_than(v.format(), v),
{
}

} // verus!
