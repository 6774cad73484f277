//! Defaults of the level descriptor.
use vstd::prelude::*;

verus! {

/// The value an optional flag of a level entity takes when the level file
/// leaves it out: whether the entity is deadly, and whether it is fragile.
pub fn initialize_false() -> (r: bool)
    ensures
        !r,
{
    false
}

} // verus!
