//! Default values of JSON fields, and the checks that decide whether a field
//! is left out when a file is written (because it holds its default, or the
//! target version does not know it). `target` is the target pack format, 0
//! for none.
use crate::version::{MinecraftVersion, newer_than, older_than, is_newer_than, is_older_than};
use vstd::prelude::*;

verus! {

pub fn default_underscore() -> (r: String)
    ensures
        r@ == seq!['_'],
{
    crate::text::string_of(&vec!['_'])
}

pub fn is_underscore(s: &String) -> (r: bool)
    ensures
        r == (s@ == seq!['_']),
{
    let c = crate::text::chars_of(s.as_str());
    let u = vec!['_'];
    assert(u@ == seq!['_']);
    crate::text::chars_eq(&c, &u)
}

pub fn is_none_or_newer_than_26_1<T>(value: &Option<T>, target: u8) -> (r: bool)
    ensures
        r == (value is None || newer_than(target, MinecraftVersion::V26_1)),
{
    value.is_none() || is_newer_than(target, MinecraftVersion::V26_1)
}

pub fn is_none_or_older_than_1_21_11<T>(value: &Option<T>, target: u8) -> (r: bool)
    ensures
        r == (value is None || older_than(target, MinecraftVersion::V1_21_11)),
{
    value.is_none() || is_older_than(target, MinecraftVersion::V1_21_11)
}

pub fn default_one_u32() -> (r: u32)
    ensures
        r == 1,
{
    1
}

pub fn default_16_u32() -> (r: u32)
    ensures
        r == 16,
{
    16
}

pub fn is_one_u32(f: &u32) -> (r: bool)
    ensures
        r == (*f == 1),
{
    *f == 1
}

pub fn is_16_u32(f: &u32) -> (r: bool)
    ensures
        r == (*f == 16),
{
    *f == 16
}

pub fn is_zero(v: &i32) -> (r: bool)
    ensures
        r == (*v == 0),
{
    *v == 0
}

pub fn default_weight() -> (r: i32)
    ensures
        r == 1,
{
    1
}

pub fn is_default_weight(v: &i32) -> (r: bool)
    ensures
        r == (*v == 1),
{
    *v == 1
}

pub fn is_zero_or_older_than_1_21_11(v: &i32, target: u8) -> (r: bool)
    ensures
        r == (*v == 0 || older_than(target, MinecraftVersion::V1_21_11)),
{
    *v == 0 || is_older_than(target, MinecraftVersion::V1_21_11)
}

pub fn default_true() -> (r: bool)
    ensures
        r,
{
    true
}

pub fn is_true(b: &bool) -> (r: bool)
    ensures
        r == *b,
{
    *b
}

pub fn default_ground() -> (r: String)
    ensures
        r@ == seq!['g', 'r', 'o', 'u', 'n', 'd'],
{
    crate::text::string_of(&vec!['g', 'r', 'o', 'u', 'n', 'd'])
}

pub fn default_ceiling_middle() -> (r: String)
    ensures
        r@ == seq!['c', 'e', 'i', 'l', 'i', 'n', 'g', '_', 'm', 'i', 'd', 'd', 'l', 'e'],
{
    crate::text::string_of(&vec!['c', 'e', 'i', 'l', 'i', 'n', 'g', '_', 'm', 'i', 'd', 'd', 'l', 'e'])
}

pub fn default_single() -> (r: String)
    ensures
        r@ == seq!['s', 'i', 'n', 'g', 'l', 'e'],
{
    crate::text::string_of(&vec!['s', 'i', 'n', 'g', 'l', 'e'])
}

/// `oversized_in_gui` is left out when false or when the target predates
/// 1.21.6, which introduced it.
pub fn is_false_or_older_than_1_21_6(value: &bool, target: u8) -> (r: bool)
    ensures
        r == (!*value || older_than(target, MinecraftVersion::V1_21_6)),
{
    !*value || is_older_than(target, MinecraftVersion::V1_21_6)
}

pub fn is_none_or_older_than_26_1<T>(value: &Option<T>, target: u8) -> (r: bool)
    ensures
        r == (value is None || older_than(target, MinecraftVersion::V26_1)),
{
    value.is_none() || is_older_than(target, MinecraftVersion::V26_1)
}

} // verus!
