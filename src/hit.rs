use vstd::prelude::*;

use crate::vector::Vec3;

verus! {

/// Where a ray meets a surface: the point, the unit normal turned toward the
/// side the ray came from, and the ray parameter `t` of the point.
#[derive(Clone, Copy)]
pub struct Hit<T> {
    pub point: Vec3<T>,
    pub normal: Vec3<T>,
    pub t: T,
}

} // verus!
