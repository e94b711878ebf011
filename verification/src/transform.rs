use std::sync::Arc;
use vstd::prelude::*;

use crate::skinnable::{Skinnable, Skinned};
use crate::utils::reversed;

verus! {

/// A transform matrix kept together with its inverse.
#[derive(Debug, Clone, Copy)]
pub struct StaticTransform<X> {
    pub transform: X,
    pub inverse: X,
}

/// Things that a transform can be applied to, given the matrix and its inverse.
pub trait Transformable<X>: Sized {
    type Target;

    /// Whether `target` is what `self` becomes under `transform`, with
    /// `inverse_transform` as its inverse.
    spec fn spec_transforms_into(&self, transform: X, inverse_transform: X, target: Self::Target) -> bool;

    fn core_transform(self, transform: &X, inverse_transform: &X) -> (t: Self::Target)
        ensures
            self.spec_transforms_into(*transform, *inverse_transform, t),
    ;
}

/// Marks a type whose transformed form is a `Transformed` wrapper around it.
pub trait DefaultTransformable {}

/// A primitive placed in the scene by a transform.
#[derive(Debug, Clone)]
pub struct Transformed<P, X> {
    primitive: P,
    transform: StaticTransform<X>,
}

impl<P, X> Transformed<P, X> {
    pub closed spec fn spec_primitive(&self) -> P {
        self.primitive
    }

    pub closed spec fn spec_transform(&self) -> StaticTransform<X> {
        self.transform
    }

    pub fn new(primitive: P, transform: StaticTransform<X>) -> (t: Self)
        ensures
            t.spec_primitive() == primitive,
            t.spec_transform() == transform,
    {
        Transformed { primitive, transform }
    }

    /// The primitive that is placed.
    pub fn primitive(&self) -> (p: &P)
        ensures
            *p == self.spec_primitive(),
    {
        &self.primitive
    }

    /// The transform that places it.
    pub fn transform(&self) -> (t: &StaticTransform<X>)
        ensures
            *t == self.spec_transform(),
    {
        &self.transform
    }
}

impl<X: Copy, DT: DefaultTransformable> Transformable<X> for DT {
    type Target = Transformed<DT, X>;

    /// The primitive itself, placed by the transform and its inverse as given.
    open spec fn spec_transforms_into(&self, transform: X, inverse_transform: X, target: Transformed<DT, X>) -> bool {
        &&& target.spec_primitive() == *self
        &&& target.spec_transform() == (StaticTransform { transform, inverse: inverse_transform })
    }

    fn core_transform(self, transform: &X, inverse_transform: &X) -> (t: Transformed<DT, X>)
        ensures
            t.spec_primitive() == self,
            t.spec_transform() == (StaticTransform { transform: *transform, inverse: *inverse_transform }),
    {
        Transformed {
            primitive: self,
            transform: StaticTransform { transform: *transform, inverse: *inverse_transform },
        }
    }
}

impl<M, P: Skinnable<M>, X> Skinnable<M> for Transformed<P, X> {
    type Target = Transformed<P::Target, X>;

    /// The material goes to the placed primitive; the transform stays.
    open spec fn spec_skins_into(&self, material: M, target: Transformed<P::Target, X>) -> bool {
        &&& target.spec_transform() == self.spec_transform()
        &&& self.spec_primitive().spec_skins_into(material, target.spec_primitive())
    }

    fn apply_shared_material(self, material: Arc<M>) -> (t: Transformed<P::Target, X>) {
        Transformed {
            primitive: self.primitive.apply_shared_material(material),
            transform: self.transform,
        }
    }
}

impl<X, M, P: Transformable<X>> Transformable<X> for Skinned<P, M> {
    type Target = Skinned<P::Target, M>;

    /// The primitive transformed with the same transform and inverse; the material kept.
    open spec fn spec_transforms_into(&self, transform: X, inverse_transform: X, target: Skinned<P::Target, M>) -> bool {
        &&& target.spec_material() == self.spec_material()
        &&& self.spec_primitive().spec_transforms_into(transform, inverse_transform, target.spec_primitive())
    }

    /// The transform goes to the primitive; the material stays.
    fn core_transform(self, transform: &X, inverse_transform: &X) -> (s: Skinned<P::Target, M>)
        ensures
            s.spec_material() == self.spec_material(),
    {
        let (primitive, material) = self.split();
        Skinned::new(primitive.core_transform(transform, inverse_transform), material)
    }
}

/// Transforming a skinned primitive places the primitive itself with exactly the
/// transform and inverse given, and keeps its material: the stored inverse is the given
/// inverse, not the forward transform.
pub proof fn lemma_skinned_transform_keeps_pair<X: Copy, M, P: DefaultTransformable>(
    skinned: Skinned<P, M>,
    transform: X,
    inverse_transform: X,
    placed: Skinned<Transformed<P, X>, M>,
)
    requires
        skinned.spec_transforms_into(transform, inverse_transform, placed),
    ensures
        placed.spec_material() == skinned.spec_material(),
        placed.spec_primitive().spec_primitive() == skinned.spec_primitive(),
        placed.spec_primitive().spec_transform().transform == transform,
        placed.spec_primitive().spec_transform().inverse == inverse_transform,
{
}

/// The members of a transformed group, each placed by the group's transform.
pub struct TransformableIterator<P, X> {
    // The members still to come, the next one last.
    rest: Vec<P>,
    transform: StaticTransform<X>,
}

impl<P, X: Copy> TransformableIterator<P, X> {
    /// The members still to come, in order.
    pub closed spec fn remaining(&self) -> Seq<P> {
        self.rest@.reverse()
    }

    pub closed spec fn spec_transform(&self) -> StaticTransform<X> {
        self.transform
    }

    pub fn next(&mut self) -> (r: Option<Transformed<P, X>>)
        ensures
            final(self).spec_transform() == old(self).spec_transform(),
            old(self).remaining().len() == 0 ==> r is None && final(self).remaining() == old(
                self,
            ).remaining(),
            old(self).remaining().len() > 0 ==> (r matches Some(t) && t.spec_primitive() == old(
                self,
            ).remaining()[0] && t.spec_transform() == old(self).spec_transform()
                && final(self).remaining() == old(self).remaining().drop_first()),
    {
        match self.rest.pop() {
            Some(primitive) => {
                proof {
                    assert(self.rest@.reverse() =~= old(self).rest@.reverse().drop_first());
                }
                Some(Transformed { primitive, transform: self.transform })
            },
            None => None,
        }
    }
}

impl<P, X: Copy> Transformed<Vec<P>, X> {
    /// The members of a transformed group, each carrying the group's transform.
    pub fn into_iter(self) -> (it: TransformableIterator<P, X>)
        ensures
            it.remaining() == self.spec_primitive()@,
            it.spec_transform() == self.spec_transform(),
    {
        let rest = reversed(self.primitive);
        TransformableIterator { rest, transform: self.transform }
    }
}

} // verus!
