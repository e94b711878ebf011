use vstd::prelude::*;

use super::primitive::{
    CompoundPrimitive, SkinnablePrimitive, SkinnedPrimitive, UntransformedPrimitive,
};
use super::shape::{CollectionShape, CompoundShape, IntoShape, TypedCompoundShape};
use crate::utils::reversed;

verus! {

/// A primitive placed in the scene by a transform.
#[derive(Clone, Debug)]
pub struct TransformedPrimitive<P, T> {
    primitive: P,
    transform: T,
}

impl<P, T> TransformedPrimitive<P, T> {
    pub closed spec fn spec_primitive(&self) -> P {
        self.primitive
    }

    pub closed spec fn spec_transform(&self) -> T {
        self.transform
    }

    /// The primitive that is placed.
    pub fn primitive(&self) -> (p: &P)
        ensures
            *p == self.spec_primitive(),
    {
        &self.primitive
    }

    /// The transform that places it.
    pub fn transform(&self) -> (t: &T)
        ensures
            *t == self.spec_transform(),
    {
        &self.transform
    }
}

/// A shape placed in the scene by a transform.
#[derive(Clone, Debug)]
pub struct TransformedShape<S, T> {
    transform: T,
    shape: S,
}

impl<S, T> TransformedShape<S, T> {
    pub closed spec fn spec_shape(&self) -> S {
        self.shape
    }

    pub closed spec fn spec_transform(&self) -> T {
        self.transform
    }

    pub fn new(shape: S, transform: T) -> (t: Self)
        ensures
            t.spec_shape() == shape,
            t.spec_transform() == transform,
    {
        TransformedShape { transform, shape }
    }

    /// The shape that is placed.
    pub fn shape(&self) -> (s: &S)
        ensures
            *s == self.spec_shape(),
    {
        &self.shape
    }

    /// The transform that places it.
    pub fn transform(&self) -> (t: &T)
        ensures
            *t == self.spec_transform(),
    {
        &self.transform
    }
}

/// Primitives that a transform of type `T` can place.
pub trait TransformablePrimitive<T>: Sized {
    type Target;

    /// Whether `target` is this primitive placed by `transform`.
    spec fn spec_transforms_into(&self, transform: T, target: Self::Target) -> bool;

    fn transform(self, transform: T) -> (r: Self::Target)
        ensures
            self.spec_transforms_into(transform, r),
    ;
}

/// Shapes that a transform of type `T` can place.
pub trait TransformableShape<T>: Sized {
    type Target;

    /// Whether `target` is this shape placed by `transform`.
    spec fn spec_transforms_into(&self, transform: T, target: Self::Target) -> bool;

    fn transform(self, transform: T) -> (r: Self::Target)
        ensures
            self.spec_transforms_into(transform, r),
    ;
}

impl<T, P: UntransformedPrimitive> TransformablePrimitive<T> for P {
    type Target = TransformedPrimitive<P, T>;

    /// A primitive that no transform placed yet is wrapped with the transform.
    open spec fn spec_transforms_into(&self, transform: T, target: TransformedPrimitive<P, T>) -> bool {
        target.spec_primitive() == *self && target.spec_transform() == transform
    }

    fn transform(self, transform: T) -> (r: TransformedPrimitive<P, T>) {
        TransformedPrimitive { primitive: self, transform }
    }
}

/// Places each of `items` by `transform`, keeping their order.
fn transform_primitives<T: Copy, P: TransformablePrimitive<T>>(items: Vec<P>, transform: T) -> (r: Vec<
    P::Target,
>)
    ensures
        r@.len() == items@.len(),
        forall|i: int|
            0 <= i < items@.len() ==> #[trigger] items@[i].spec_transforms_into(transform, r@[i]),
{
    let mut rest = reversed(items);
    let mut out: Vec<P::Target> = Vec::new();
    while rest.len() > 0
        invariant
            out@.len() + rest@.len() == items@.len(),
            rest@.reverse() == items@.skip(out@.len() as int),
            forall|i: int|
                0 <= i < out@.len() ==> #[trigger] items@[i].spec_transforms_into(transform, out@[i]),
        decreases rest@.len(),
    {
        let ghost before = rest@;
        let p = rest.pop().unwrap();
        proof {
            assert(before =~= rest@.push(p));
            assert(before.reverse()[0] == p);
            assert(rest@.reverse() =~= before.reverse().drop_first());
        }
        let t = p.transform(transform);
        out.push(t);
        proof {
            assert(items@.skip(out@.len() - 1)[0] == items@[out@.len() - 1]);
            assert(items@.skip(out@.len() as int) =~= items@.skip(out@.len() - 1).drop_first());
        }
    }
    out
}

impl<T: Copy, P: TransformablePrimitive<T>> TransformablePrimitive<T> for CompoundPrimitive<P> {
    type Target = CompoundPrimitive<P::Target>;

    /// A group is placed member by member.
    open spec fn spec_transforms_into(&self, transform: T, target: CompoundPrimitive<P::Target>) -> bool {
        &&& target.0@.len() == self.0@.len()
        &&& forall|i: int|
            0 <= i < self.0@.len() ==> #[trigger] self.0@[i].spec_transforms_into(
                transform,
                target.0@[i],
            )
    }

    fn transform(self, transform: T) -> (r: CompoundPrimitive<P::Target>) {
        CompoundPrimitive(transform_primitives(self.0, transform))
    }
}

impl<T: Copy, P: TransformablePrimitive<T>, M> TransformableShape<T> for SkinnedPrimitive<P, M> {
    type Target = SkinnedPrimitive<P::Target, M>;

    /// The primitives are placed one by one and keep their material.
    open spec fn spec_transforms_into(&self, transform: T, target: SkinnedPrimitive<P::Target, M>) -> bool {
        &&& target.spec_material() == self.spec_material()
        &&& target.spec_primitives().len() == self.spec_primitives().len()
        &&& forall|i: int|
            0 <= i < self.spec_primitives().len() ==> #[trigger] self.spec_primitives()[i].spec_transforms_into(
                transform,
                target.spec_primitives()[i],
            )
    }

    fn transform(self, transform: T) -> (r: SkinnedPrimitive<P::Target, M>) {
        let (primitives, material) = self.into_parts();
        SkinnedPrimitive::new(material, transform_primitives(primitives, transform))
    }
}

/// Places each of `items` by `transform`, keeping their order.
fn transform_shapes<T: Copy, S: TransformableShape<T>>(items: Vec<S>, transform: T) -> (r: Vec<
    S::Target,
>)
    ensures
        r@.len() == items@.len(),
        forall|i: int|
            0 <= i < items@.len() ==> #[trigger] items@[i].spec_transforms_into(transform, r@[i]),
{
    let mut rest = reversed(items);
    let mut out: Vec<S::Target> = Vec::new();
    while rest.len() > 0
        invariant
            out@.len() + rest@.len() == items@.len(),
            rest@.reverse() == items@.skip(out@.len() as int),
            forall|i: int|
                0 <= i < out@.len() ==> #[trigger] items@[i].spec_transforms_into(transform, out@[i]),
        decreases rest@.len(),
    {
        let ghost before = rest@;
        let s = rest.pop().unwrap();
        proof {
            assert(before =~= rest@.push(s));
            assert(before.reverse()[0] == s);
            assert(rest@.reverse() =~= before.reverse().drop_first());
        }
        let t = s.transform(transform);
        out.push(t);
        proof {
            assert(items@.skip(out@.len() - 1)[0] == items@[out@.len() - 1]);
            assert(items@.skip(out@.len() as int) =~= items@.skip(out@.len() - 1).drop_first());
        }
    }
    out
}

impl<T: Copy, S: TransformableShape<T>> TransformableShape<T> for CollectionShape<S> {
    type Target = CollectionShape<S::Target>;

    /// A collection is placed shape by shape.
    open spec fn spec_transforms_into(&self, transform: T, target: CollectionShape<S::Target>) -> bool {
        &&& target.spec_shapes().len() == self.spec_shapes().len()
        &&& forall|i: int|
            0 <= i < self.spec_shapes().len() ==> #[trigger] self.spec_shapes()[i].spec_transforms_into(
                transform,
                target.spec_shapes()[i],
            )
    }

    fn transform(self, transform: T) -> (r: CollectionShape<S::Target>) {
        transform_shapes(self.into_typed_geometry_iterator(), transform).into_shape()
    }
}

impl<M, P, T> SkinnablePrimitive<M> for TransformedPrimitive<P, T> {
    type Target = SkinnedPrimitive<TransformedPrimitive<P, T>, M>;

    /// A placed primitive is skinned as a group of itself alone.
    fn apply_material(self, material: M) -> (s: SkinnedPrimitive<TransformedPrimitive<P, T>, M>)
        ensures
            s.spec_material() == material,
            s.spec_primitives() == seq![self],
    {
        SkinnedPrimitive::new(material, vec![self])
    }
}

/// The pieces of a placed shape, each placed by a copy of its transform.
pub struct TransformedShapeIterator<G, T> {
    transform: T,
    // The pieces still to come, the next one last.
    rest: Vec<G>,
}

impl<G, T> TransformedShapeIterator<G, T> {
    /// The pieces still to come, in order.
    pub closed spec fn remaining(&self) -> Seq<G> {
        self.rest@.reverse()
    }

    pub closed spec fn spec_transform(&self) -> T {
        self.transform
    }
}

impl<G, T: Copy> TransformedShapeIterator<G, T> {
    pub fn next(&mut self) -> (r: Option<TransformedShape<G, T>>)
        ensures
            final(self).spec_transform() == old(self).spec_transform(),
            old(self).remaining().len() == 0 ==> r is None && final(self).remaining() == old(
                self,
            ).remaining(),
            old(self).remaining().len() > 0 ==> (r matches Some(s) && s.spec_shape() == old(
                self,
            ).remaining()[0] && s.spec_transform() == old(self).spec_transform()
                && final(self).remaining() == old(self).remaining().drop_first()),
    {
        match self.rest.pop() {
            Some(shape) => {
                proof {
                    assert(self.rest@.reverse() =~= old(self).rest@.reverse().drop_first());
                }
                Some(TransformedShape { transform: self.transform, shape })
            },
            None => None,
        }
    }
}

impl<S, T> TransformedShape<S, T> {
    /// The pieces of the shape, each to be placed by the same transform.
    pub fn into_geometry_iterator<G>(self) -> (it: TransformedShapeIterator<G, T>) where
        S: CompoundShape<G>,
        ensures
            it.remaining() == self.spec_shape().spec_geometry(),
            it.spec_transform() == self.spec_transform(),
    {
        TransformedShapeIterator {
            transform: self.transform,
            rest: reversed(self.shape.into_geometry_iterator()),
        }
    }
}

} // verus!
