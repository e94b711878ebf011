use vstd::prelude::*;

use super::shape::SimpleShape;

verus! {

/// What a modifier does to the rays going into the shape it wraps, to the hits coming
/// out and to the shape's box: `R` is the ray, `H` the hit and `B` the box.
pub trait GeometryModifier<R, H, B> {
    spec fn spec_input_ray(&self, ray: R) -> R;

    spec fn spec_hit_result(&self, original_ray: R, modified_ray: R, hit_result: H) -> H;

    spec fn spec_bounding_box(&self, bounding_box: B) -> B;

    /// The ray that the wrapped shape is asked about.
    fn process_input_ray(&self, ray: &R) -> (r: R)
        ensures
            r == self.spec_input_ray(*ray),
    ;

    /// The hit that the wrapped shape gave, as the outside sees it.
    fn process_hit_result(&self, original_ray: &R, modified_ray: &R, hit_result: H) -> (h: H)
        ensures
            h == self.spec_hit_result(*original_ray, *modified_ray, hit_result),
    ;

    /// The box of the wrapped shape, as the outside sees it.
    fn translate_bounding_box(&self, bounding_box: B) -> (b: B)
        ensures
            b == self.spec_bounding_box(bounding_box),
    ;
}

/// A shape seen through a modifier that changes the rays going in and the hits coming out.
#[derive(Debug)]
pub struct GeometryWrapper<M, C> {
    modifier: M,
    child: Box<C>,
}

impl<M, C> GeometryWrapper<M, C> {
    pub closed spec fn spec_modifier(&self) -> M {
        self.modifier
    }

    pub closed spec fn spec_child(&self) -> C {
        *self.child
    }

    pub fn modifier(&self) -> (m: &M)
        ensures
            *m == self.spec_modifier(),
    {
        &self.modifier
    }

    pub fn child(&self) -> (c: &C)
        ensures
            *c == self.spec_child(),
    {
        &self.child
    }
}

impl<M, C> GeometryWrapper<M, C> {
    /// Where a ray meets the wrapped shape: the child, found by `child_intersect`, is
    /// asked about the modified ray, and its hit, if any, is handed back through the
    /// modifier.
    pub fn intersect<R, H, B, I: FnOnce(&C, &R) -> Option<H>>(&self, ray: &R, child_intersect: I) -> (r:
        Option<H>) where M: GeometryModifier<R, H, B>
        requires
            forall|input: R| #[trigger] child_intersect.requires((&self.spec_child(), &input)),
        ensures
            exists|hit: Option<H>|
                #[trigger] child_intersect.ensures(
                    (&self.spec_child(), &self.spec_modifier().spec_input_ray(*ray)),
                    hit,
                ) && r == match hit {
                    Some(h) => Some(
                        self.spec_modifier().spec_hit_result(
                            *ray,
                            self.spec_modifier().spec_input_ray(*ray),
                            h,
                        ),
                    ),
                    None => None,
                },
    {
        let input_ray = self.modifier.process_input_ray(ray);
        let child: &C = &*self.child;
        assert(child_intersect.requires((&self.spec_child(), &input_ray)));
        let hit = child_intersect(child, &input_ray);
        assert(child_intersect.ensures(
            (&self.spec_child(), &self.spec_modifier().spec_input_ray(*ray)),
            hit,
        ));
        match hit {
            Some(hit_result) => Some(self.modifier.process_hit_result(ray, &input_ray, hit_result)),
            None => None,
        }
    }

    /// The box of the wrapped shape, given the box of the child, as the modifier turns it.
    pub fn bounding_box<R, H, B>(&self, child_box: B) -> (b: B) where M: GeometryModifier<R, H, B>
        ensures
            b == self.spec_modifier().spec_bounding_box(child_box),
    {
        self.modifier.translate_bounding_box(child_box)
    }
}

/// Wraps `child` in `modifier`.
pub fn geometry_wrapper<M, C>(modifier: M, child: C) -> (w: GeometryWrapper<M, C>)
    ensures
        w.spec_modifier() == modifier,
        w.spec_child() == child,
{
    GeometryWrapper { modifier, child: Box::new(child) }
}

impl<M, C> SimpleShape for GeometryWrapper<M, C> {}

} // verus!
