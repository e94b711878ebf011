use vstd::prelude::*;

use super::shape::HitResult;
use crate::utils::reversed;

verus! {

/// Where a ray met a shape that has no material yet.
#[derive(Debug)]
pub struct UnskinnedHitResult<F, P, V> {
    pub distance: F,
    pub hit_point: P,
    pub surface_normal: V,
    pub tangent: V,
    pub bitangent: V,
    pub front_face: bool,
    pub u: F,
    pub v: F,
}

impl<F, P, V> UnskinnedHitResult<F, P, V> {
    /// The same hit, now with `material`.
    pub fn into_hit_result<'a, M: ?Sized>(self, material: &'a M) -> (h: HitResult<'a, F, P, V, M>)
        ensures
            h.distance == self.distance,
            h.hit_point == self.hit_point,
            h.surface_normal == self.surface_normal,
            h.tangent == self.tangent,
            h.bitangent == self.bitangent,
            h.front_face == self.front_face,
            h.u == self.u,
            h.v == self.v,
            h.material == material,
    {
        HitResult {
            distance: self.distance,
            hit_point: self.hit_point,
            surface_normal: self.surface_normal,
            tangent: self.tangent,
            bitangent: self.bitangent,
            front_face: self.front_face,
            u: self.u,
            v: self.v,
            material,
        }
    }
}

/// A shape together with its material.
#[derive(Clone, Debug)]
pub struct SkinnedShape<S, M> {
    shape: S,
    material: M,
}

impl<S, M> SkinnedShape<S, M> {
    pub closed spec fn spec_shape(&self) -> S {
        self.shape
    }

    pub closed spec fn spec_material(&self) -> M {
        self.material
    }

    pub fn shape(&self) -> (s: &S)
        ensures
            *s == self.spec_shape(),
    {
        &self.shape
    }

    pub fn material(&self) -> (m: &M)
        ensures
            *m == self.spec_material(),
    {
        &self.material
    }
}

/// Marks a shape without material that is a single piece: it breaks into itself alone.
pub trait UnskinnedSimpleShape {}

/// Shapes without material that break into pieces of type `G`.
pub trait CompoundUnskinnedShape<G>: Sized {
    /// The pieces, in order.
    spec fn spec_unskinned_geometry(&self) -> Seq<G>;

    fn into_unskinned_geometry_iterator(self) -> (v: Vec<G>)
        ensures
            v@ == self.spec_unskinned_geometry(),
    ;
}

impl<S: UnskinnedSimpleShape> CompoundUnskinnedShape<S> for S {
    open spec fn spec_unskinned_geometry(&self) -> Seq<S> {
        seq![*self]
    }

    fn into_unskinned_geometry_iterator(self) -> (v: Vec<S>) {
        vec![self]
    }
}

impl<G, S: CompoundUnskinnedShape<G>, M> CompoundUnskinnedShape<G> for SkinnedShape<S, M> {
    /// A skinned shape breaks into the pieces of its shape.
    open spec fn spec_unskinned_geometry(&self) -> Seq<G> {
        self.spec_shape().spec_unskinned_geometry()
    }

    fn into_unskinned_geometry_iterator(self) -> (v: Vec<G>) {
        self.shape.into_unskinned_geometry_iterator()
    }
}

/// Shapes that a material can be applied to.
pub trait SkinnableShape: Sized {
    fn apply_material<M>(self, material: M) -> SkinnedShape<Self, M>;
}

impl<S> SkinnableShape for S {
    fn apply_material<M>(self, material: M) -> (s: SkinnedShape<S, M>)
        ensures
            s.spec_shape() == self,
            s.spec_material() == material,
    {
        SkinnedShape { shape: self, material }
    }
}

/// The pieces of a shape, each given a copy of the shape's material.
pub struct SkinnedShapeIterator<G, M> {
    material: M,
    // The pieces still to come, the next one last.
    rest: Vec<G>,
}

impl<G, M> SkinnedShapeIterator<G, M> {
    /// The pieces still to come, in order.
    pub closed spec fn remaining(&self) -> Seq<G> {
        self.rest@.reverse()
    }
}

impl<G, M: Clone> SkinnedShapeIterator<G, M> {
    pub fn next(&mut self) -> (r: Option<SkinnedShape<G, M>>)
        ensures
            old(self).remaining().len() == 0 ==> r is None && final(self).remaining() == old(
                self,
            ).remaining(),
            old(self).remaining().len() > 0 ==> (r matches Some(s) && s.spec_shape() == old(
                self,
            ).remaining()[0] && final(self).remaining() == old(self).remaining().drop_first()),
    {
        match self.rest.pop() {
            Some(shape) => {
                proof {
                    assert(self.rest@.reverse() =~= old(self).rest@.reverse().drop_first());
                }
                Some(SkinnedShape { material: self.material.clone(), shape })
            },
            None => None,
        }
    }
}

impl<S, M> SkinnedShape<S, M> {
    /// The pieces of the shape, each to be given a copy of the material.
    pub fn into_geometry_iterator<G>(self) -> (it: SkinnedShapeIterator<G, M>) where
        S: CompoundUnskinnedShape<G>,
        ensures
            it.remaining() == self.spec_shape().spec_unskinned_geometry(),
    {
        SkinnedShapeIterator {
            material: self.material,
            rest: reversed(self.shape.into_unskinned_geometry_iterator()),
        }
    }
}

} // verus!
