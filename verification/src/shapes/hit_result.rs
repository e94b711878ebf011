use vstd::prelude::*;

verus! {

/// Where a ray met a hittable object, with the material at that point.
#[derive(Debug)]
pub struct HitResult<'a, F, P, V, M: ?Sized> {
    pub distance: F,
    pub hit_point: P,
    pub surface_normal: V,
    pub front_face: bool,
    pub material: &'a M,
    pub u: F,
    pub v: F,
}

} // verus!
