use vstd::prelude::*;

verus! {

/// A shape paired with the material of its surface.
pub struct Actor<H, M> {
    pub hitable: H,
    pub material: M,
}

} // verus!
