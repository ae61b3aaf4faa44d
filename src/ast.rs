//! The quantity node that the recipe parser produces.
use vstd::prelude::*;

use crate::quantity::Value;

verus! {

/// A quantity as written in a recipe: one value, possibly marked to scale
/// automatically with the servings, or one value per serving count.
pub enum QuantityValue {
    Single { value: Value, auto_scale: bool },
    Many(Vec<Value>),
}

} // verus!
