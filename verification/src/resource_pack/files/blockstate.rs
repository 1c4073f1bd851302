//! Blockstate definitions: which model each block state shows.
use crate::resource_pack::files::asset_path::{asset_file_path, asset_path_text};
use crate::resource_pack::identifier::{Identifier, ModelId};
use crate::text::string_of;
use vstd::prelude::*;

verus! {

/// A model shown for a block state, with its rotation, UV lock and weight.
#[derive(Clone, Debug)]
pub struct BlockModel {
    pub model: ModelId,
    pub x: i32,
    pub y: i32,
    pub z: i32,
    pub uvlock: bool,
    pub weight: i32,
}

/// One model, or a list of weighted models to pick from.
#[derive(Clone, Debug)]
pub enum VariantValue {
    Single(BlockModel),
    Multiple(Vec<BlockModel>),
}

/// The `when` of a multipart case: all of the conditions (`AND`), one of
/// them (`OR`), or one set of state values.
#[derive(Clone, Debug)]
pub enum MultipartCondition {
    Or { or: Vec<Vec<(String, String)>> },
    And { and: Vec<Vec<(String, String)>> },
    Single(Vec<(String, String)>),
}

/// A case of a multipart blockstate: the models applied when the condition
/// holds (always, without a condition).
#[derive(Clone, Debug)]
pub struct MultipartCase {
    pub when: Option<MultipartCondition>,
    pub apply: VariantValue,
}

/// A blockstate definition, by its overlay and identifier.
#[derive(Clone, Debug)]
pub struct Blockstate {
    pub overlay: String,
    pub identifier: Identifier,
    pub variants: Option<Vec<(String, VariantValue)>>,
    pub multipart: Option<Vec<MultipartCase>>,
}

pub open spec fn blockstates_dir() -> Seq<char> {
    seq!['b', 'l', 'o', 'c', 'k', 's', 't', 'a', 't', 'e', 's']
}

pub open spec fn json_ext() -> Seq<char> {
    seq!['j', 's', 'o', 'n']
}

impl Blockstate {
    /// `[overlay/]assets/<namespace>/blockstates/<path>.json`
    pub fn path(&self) -> (r: String)
        ensures
            r@ == asset_path_text(
                self.overlay@,
                self.identifier.namespace@,
                blockstates_dir(),
                self.identifier.path@,
                json_ext(),
            ),
    {
        let kind_chars = vec!['b', 'l', 'o', 'c', 'k', 's', 't', 'a', 't', 'e', 's'];
        let ext_chars = vec!['j', 's', 'o', 'n'];
        assert(kind_chars@ =~= blockstates_dir());
        assert(ext_chars@ =~= json_ext());
        let kind = string_of(&kind_chars);
        let ext = string_of(&ext_chars);
        asset_file_path(self.overlay.as_str(), &self.identifier, kind.as_str(), ext.as_str())
    }
}

} // verus!
