//! Block and item models: the parts without geometry.
use vstd::prelude::*;

verus! {

/// An item model override: the model used when the predicates hold.
#[derive(Clone, Debug)]
pub struct Override {
    pub predicate: Option<Vec<String>>,
    pub model: String,
}

} // verus!
