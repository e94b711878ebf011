use vstd::prelude::*;

use super::volume::{combined_box, group_box, VolumeBounds};
use crate::utils::reversed;

verus! {

/// Where a ray met a primitive: the distance along the ray, the point, the frame of the
/// surface there, which side was hit, and the texture coordinates.
#[derive(Debug)]
pub struct PrimitiveHitResult<F, P, V> {
    distance: F,
    hit_point: P,
    surface_normal: V,
    tangent: V,
    bitangent: V,
    front_face: bool,
    uv: (F, F),
}

impl<F: Copy, P: Copy, V: Copy> PrimitiveHitResult<F, P, V> {
    pub closed spec fn spec_distance(&self) -> F {
        self.distance
    }

    pub closed spec fn spec_hit_point(&self) -> P {
        self.hit_point
    }

    pub closed spec fn spec_surface_normal(&self) -> V {
        self.surface_normal
    }

    pub closed spec fn spec_tangent(&self) -> V {
        self.tangent
    }

    pub closed spec fn spec_bitangent(&self) -> V {
        self.bitangent
    }

    pub closed spec fn spec_front_face(&self) -> bool {
        self.front_face
    }

    pub closed spec fn spec_uv(&self) -> (F, F) {
        self.uv
    }

    /// Whether `self` and `other` agree on everything but the fields named true here.
    pub open spec fn same_except(
        &self,
        other: &Self,
        distance: bool,
        hit_point: bool,
        surface_normal: bool,
        tangent: bool,
        bitangent: bool,
        front_face: bool,
    ) -> bool {
        &&& distance || self.spec_distance() == other.spec_distance()
        &&& hit_point || self.spec_hit_point() == other.spec_hit_point()
        &&& surface_normal || self.spec_surface_normal() == other.spec_surface_normal()
        &&& tangent || self.spec_tangent() == other.spec_tangent()
        &&& bitangent || self.spec_bitangent() == other.spec_bitangent()
        &&& front_face || self.spec_front_face() == other.spec_front_face()
        &&& self.spec_uv() == other.spec_uv()
    }

    pub fn new(
        distance: F,
        hit_point: P,
        surface_normal: V,
        tangent: V,
        bitangent: V,
        front_face: bool,
        uv: (F, F),
    ) -> (h: Self)
        ensures
            h.spec_distance() == distance,
            h.spec_hit_point() == hit_point,
            h.spec_surface_normal() == surface_normal,
            h.spec_tangent() == tangent,
            h.spec_bitangent() == bitangent,
            h.spec_front_face() == front_face,
            h.spec_uv() == uv,
    {
        Self { distance, hit_point, surface_normal, tangent, bitangent, front_face, uv }
    }

    pub fn distance(&self) -> (d: F)
        ensures
            d == self.spec_distance(),
    {
        self.distance
    }

    pub fn set_distance(&mut self, distance: F)
        ensures
            final(self).spec_distance() == distance,
            final(self).same_except(old(self), true, false, false, false, false, false),
    {
        self.distance = distance
    }

    pub fn hit_point(&self) -> (p: P)
        ensures
            p == self.spec_hit_point(),
    {
        self.hit_point
    }

    pub fn set_hit_point(&mut self, hit_point: P)
        ensures
            final(self).spec_hit_point() == hit_point,
            final(self).same_except(old(self), false, true, false, false, false, false),
    {
        self.hit_point = hit_point
    }

    pub fn surface_normal(&self) -> (n: V)
        ensures
            n == self.spec_surface_normal(),
    {
        self.surface_normal
    }

    pub fn set_surface_normal(&mut self, surface_normal: V)
        ensures
            final(self).spec_surface_normal() == surface_normal,
            final(self).same_except(old(self), false, false, true, false, false, false),
    {
        self.surface_normal = surface_normal
    }

    pub fn tangent(&self) -> (t: V)
        ensures
            t == self.spec_tangent(),
    {
        self.tangent
    }

    pub fn set_tangent(&mut self, tangent: V)
        ensures
            final(self).spec_tangent() == tangent,
            final(self).same_except(old(self), false, false, false, true, false, false),
    {
        self.tangent = tangent
    }

    pub fn bitangent(&self) -> (b: V)
        ensures
            b == self.spec_bitangent(),
    {
        self.bitangent
    }

    pub fn set_bitangent(&mut self, bitangent: V)
        ensures
            final(self).spec_bitangent() == bitangent,
            final(self).same_except(old(self), false, false, false, false, true, false),
    {
        self.bitangent = bitangent
    }

    pub fn front_face(&self) -> (f: bool)
        ensures
            f == self.spec_front_face(),
    {
        self.front_face
    }

    pub fn set_front_face(&mut self, front_face: bool)
        ensures
            final(self).spec_front_face() == front_face,
            final(self).same_except(old(self), false, false, false, false, false, true),
    {
        self.front_face = front_face
    }

    pub fn uv(&self) -> (uv: (F, F))
        ensures
            uv == self.spec_uv(),
    {
        self.uv
    }
}

impl<F: Copy, P: Copy, V: Copy> Clone for PrimitiveHitResult<F, P, V> {
    fn clone(&self) -> (h: Self)
        ensures
            h == *self,
    {
        PrimitiveHitResult {
            distance: self.distance,
            hit_point: self.hit_point,
            surface_normal: self.surface_normal,
            tangent: self.tangent,
            bitangent: self.bitangent,
            front_face: self.front_face,
            uv: (self.uv.0, self.uv.1),
        }
    }
}

/// Primitives that share one material.
#[derive(Debug, Clone)]
pub struct SkinnedPrimitive<P, M> {
    primitives: Vec<P>,
    material: M,
}

impl<P, M> SkinnedPrimitive<P, M> {
    pub closed spec fn spec_primitives(&self) -> Seq<P> {
        self.primitives@
    }

    pub closed spec fn spec_material(&self) -> M {
        self.material
    }

    pub fn new(material: M, primitives: Vec<P>) -> (s: Self)
        ensures
            s.spec_material() == material,
            s.spec_primitives() == primitives@,
    {
        Self { material, primitives }
    }

    /// The primitives.
    pub fn primitives(&self) -> (p: &[P])
        ensures
            p@ == self.spec_primitives(),
    {
        self.primitives.as_slice()
    }

    /// The shared material.
    pub fn material(&self) -> (m: &M)
        ensures
            *m == self.spec_material(),
    {
        &self.material
    }

    /// Splits into the primitives and their material.
    pub fn into_parts(self) -> (r: (Vec<P>, M))
        ensures
            r.0@ == self.spec_primitives(),
            r.1 == self.spec_material(),
    {
        (self.primitives, self.material)
    }
}

/// A group of primitives that acts as one.
#[derive(Clone, Debug)]
pub struct CompoundPrimitive<P>(pub Vec<P>);

/// Marks a primitive that is not placed by a transform, whose skinned form is a
/// `SkinnedPrimitive` holding it alone.
pub trait UntransformedPrimitive {}

/// Primitives that a material can be applied to.
pub trait SkinnablePrimitive<M>: Sized {
    type Target;

    fn apply_material(self, material: M) -> Self::Target;
}

impl<M, P: UntransformedPrimitive> SkinnablePrimitive<M> for P {
    type Target = SkinnedPrimitive<P, M>;

    fn apply_material(self, material: M) -> (s: SkinnedPrimitive<P, M>)
        ensures
            s.spec_material() == material,
            s.spec_primitives() == seq![self],
    {
        SkinnedPrimitive { material, primitives: vec![self] }
    }
}

impl<M, P> SkinnablePrimitive<M> for CompoundPrimitive<P> {
    type Target = SkinnedPrimitive<P, M>;

    /// All the primitives of the group share the material.
    fn apply_material(self, material: M) -> (s: SkinnedPrimitive<P, M>)
        ensures
            s.spec_material() == material,
            s.spec_primitives() == self.0@,
    {
        SkinnedPrimitive { material, primitives: self.0 }
    }
}

/// Things that can be gathered into one primitive.
pub trait IntoPrimitive {
    type Primitive;

    fn into_primitive(self) -> Self::Primitive;
}

impl<P> IntoPrimitive for Vec<P> {
    type Primitive = CompoundPrimitive<P>;

    fn into_primitive(self) -> (c: CompoundPrimitive<P>)
        ensures
            c.0@ == self@,
    {
        CompoundPrimitive(self)
    }
}

/// The primitives of a group, each given a copy of one material.
pub struct SkinnedPrimitiveIterator<P, M> {
    material: M,
    // The primitives still to come, the next one last.
    rest: Vec<P>,
}

impl<P: SkinnablePrimitive<M>, M: Clone> SkinnedPrimitiveIterator<P, M> {
    /// The primitives still to come, in order.
    pub closed spec fn remaining(&self) -> Seq<P> {
        self.rest@.reverse()
    }

    pub fn new(material: M, primitives: Vec<P>) -> (it: Self)
        ensures
            it.remaining() == primitives@,
    {
        SkinnedPrimitiveIterator { material, rest: reversed(primitives) }
    }

    pub fn next(&mut self) -> (r: Option<P::Target>)
        ensures
            old(self).remaining().len() == 0 ==> r is None && final(self).remaining() == old(
                self,
            ).remaining(),
            old(self).remaining().len() > 0 ==> r is Some && final(self).remaining() == old(
                self,
            ).remaining().drop_first(),
    {
        match self.rest.pop() {
            Some(primitive) => {
                proof {
                    assert(self.rest@.reverse() =~= old(self).rest@.reverse().drop_first());
                }
                Some(primitive.apply_material(self.material.clone()))
            },
            None => None,
        }
    }
}

/// The primitives of a group, each given a copy of one material and boxed.
pub struct BoxedSkinnedPrimitiveIterator<P, M> {
    material: M,
    // The primitives still to come, the next one last.
    rest: Vec<P>,
}

impl<P: SkinnablePrimitive<M>, M: Clone> BoxedSkinnedPrimitiveIterator<P, M> {
    /// The primitives still to come, in order.
    pub closed spec fn remaining(&self) -> Seq<P> {
        self.rest@.reverse()
    }

    pub fn next(&mut self) -> (r: Option<Box<P::Target>>)
        ensures
            old(self).remaining().len() == 0 ==> r is None && final(self).remaining() == old(
                self,
            ).remaining(),
            old(self).remaining().len() > 0 ==> r is Some && final(self).remaining() == old(
                self,
            ).remaining().drop_first(),
    {
        match self.rest.pop() {
            Some(primitive) => {
                proof {
                    assert(self.rest@.reverse() =~= old(self).rest@.reverse().drop_first());
                }
                Some(Box::new(primitive.apply_material(self.material.clone())))
            },
            None => None,
        }
    }
}

impl<P: SkinnablePrimitive<M>, M: Clone> SkinnedPrimitive<P, M> {
    /// The primitives, each given its own copy of the material and boxed.
    pub fn into_geometry_iterator(self) -> (it: BoxedSkinnedPrimitiveIterator<P, M>)
        ensures
            it.remaining() == self.spec_primitives(),
    {
        BoxedSkinnedPrimitiveIterator { material: self.material, rest: reversed(self.primitives) }
    }
}

/// A group of borrowed primitives that acts as one.
#[derive(Clone, Debug)]
pub struct PrimitiveAggregator<'a, P> {
    items: &'a [P],
}

impl<'a, P> PrimitiveAggregator<'a, P> {
    pub closed spec fn spec_items(&self) -> Seq<P> {
        self.items@
    }

    /// The primitives of the group.
    pub fn items(&self) -> (s: &'a [P])
        ensures
            s@ == self.spec_items(),
    {
        self.items
    }

    /// The box around every primitive of the group, or the empty box for an empty group:
    /// the boxes of the primitives combined from first to last.
    pub fn bounding_box<C: VolumeBounds<P>>(&self, bounds: &C) -> (b: C::BoundingBox)
        ensures
            b == group_box(*bounds, self.spec_items()),
    {
        if self.items.len() == 0 {
            bounds.empty_box()
        } else {
            let mut acc = bounds.bounding_box(&self.items[0]);
            let mut i: usize = 1;
            while i < self.items.len()
                invariant
                    1 <= i <= self.items@.len(),
                    acc == combined_box(*bounds, self.items@, i as nat),
                decreases self.items@.len() - i,
            {
                let next = bounds.bounding_box(&self.items[i]);
                acc = bounds.surrounding_box(&acc, &next);
                i = i + 1;
            }
            acc
        }
    }
}

/// Things that can be viewed as one primitive made of borrowed primitives.
pub trait IntoAggregatePrimitive<'a, P> {
    fn into_aggregate_primitive(self) -> PrimitiveAggregator<'a, P>;
}

impl<'a, P> IntoAggregatePrimitive<'a, P> for &'a [P] {
    fn into_aggregate_primitive(self) -> (a: PrimitiveAggregator<'a, P>)
        ensures
            a.spec_items() == self@,
    {
        PrimitiveAggregator { items: self }
    }
}

impl<P> CompoundPrimitive<P> {
    /// The group viewed as one aggregate of its primitives.
    pub fn aggregate(&self) -> (a: PrimitiveAggregator<'_, P>)
        ensures
            a.spec_items() == self.0@,
    {
        self.0.as_slice().into_aggregate_primitive()
    }
}

} // verus!
