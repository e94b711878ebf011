use vstd::prelude::*;

use super::geometry_wrapper::{geometry_wrapper, GeometryModifier, GeometryWrapper};
use super::shape::HitResult;

verus! {

/// A modifier that turns every hit around: the inside becomes the outside.
#[derive(Debug, Clone, Copy, PartialEq, Eq, Structural)]
pub struct InvertNormal();

impl<'a, R: Copy, F, P, V, M: ?Sized, B> GeometryModifier<R, HitResult<'a, F, P, V, M>, B> for InvertNormal {
    /// The ray goes in unchanged.
    open spec fn spec_input_ray(&self, ray: R) -> R {
        ray
    }

    /// The hit comes out with its side turned around.
    open spec fn spec_hit_result(
        &self,
        original_ray: R,
        modified_ray: R,
        hit_result: HitResult<'a, F, P, V, M>,
    ) -> HitResult<'a, F, P, V, M> {
        HitResult { front_face: !hit_result.front_face, ..hit_result }
    }

    /// The box is unchanged.
    open spec fn spec_bounding_box(&self, bounding_box: B) -> B {
        bounding_box
    }

    fn process_input_ray(&self, ray: &R) -> (r: R) {
        *ray
    }

    fn process_hit_result(
        &self,
        original_ray: &R,
        modified_ray: &R,
        hit_result: HitResult<'a, F, P, V, M>,
    ) -> (h: HitResult<'a, F, P, V, M>) {
        let mut hit_result = hit_result;
        hit_result.front_face = !hit_result.front_face;
        hit_result
    }

    fn translate_bounding_box(&self, bounding_box: B) -> (b: B) {
        bounding_box
    }
}

/// `child` with its inside and outside swapped.
pub fn invert_normal<T>(child: T) -> (w: GeometryWrapper<InvertNormal, T>)
    ensures
        w.spec_modifier() == InvertNormal(),
        w.spec_child() == child,
{
    geometry_wrapper(InvertNormal(), child)
}

} // verus!
