use vstd::prelude::*;

use super::volume::{
    group_box, list_bounding_box, list_hit, list_hit_countable, spec_list_hit, VolumeBounds,
    VolumeQuery,
};
use crate::stats::RenderStatsCollector;

verus! {

broadcast use vstd::std_specs::slice::axiom_spec_slice_iter;

/// Where a ray met a shape, with the material of the shape at that point.
#[derive(Debug, Clone)]
pub struct HitResult<'a, F, P, V, M: ?Sized> {
    pub distance: F,
    pub hit_point: P,
    pub surface_normal: V,
    pub tangent: V,
    pub bitangent: V,
    pub front_face: bool,
    pub material: &'a M,
    pub u: F,
    pub v: F,
}

/// Marks a shape that is a single piece: it breaks into itself alone.
pub trait SimpleShape {}

/// Shapes that break into pieces of type `G`.
pub trait CompoundShape<G>: Sized {
    /// The pieces, in order.
    spec fn spec_geometry(&self) -> Seq<G>;

    fn into_geometry_iterator(self) -> (v: Vec<G>)
        ensures
            v@ == self.spec_geometry(),
    ;
}

/// Shapes that break into pieces of their collection's shape type `S`.
pub trait TypedCompoundShape<S>: Sized {
    /// The pieces, in order.
    spec fn spec_typed_geometry(&self) -> Seq<S>;

    fn into_typed_geometry_iterator(self) -> (v: Vec<S>)
        ensures
            v@ == self.spec_typed_geometry(),
    ;
}

impl<S: SimpleShape> CompoundShape<S> for S {
    open spec fn spec_geometry(&self) -> Seq<S> {
        seq![*self]
    }

    fn into_geometry_iterator(self) -> (v: Vec<S>) {
        vec![self]
    }
}

impl<S: SimpleShape> TypedCompoundShape<S> for S {
    open spec fn spec_typed_geometry(&self) -> Seq<S> {
        seq![*self]
    }

    fn into_typed_geometry_iterator(self) -> (v: Vec<S>) {
        vec![self]
    }
}

/// A collection of shapes of one type.
#[derive(Clone, Debug)]
pub struct CollectionShape<S>(Vec<S>);

impl<S> CollectionShape<S> {
    /// The shapes held, in the order they were added.
    pub closed spec fn spec_shapes(&self) -> Seq<S> {
        self.0@
    }

    pub fn new() -> (c: Self)
        ensures
            c.spec_shapes() == Seq::<S>::empty(),
    {
        Self(Vec::new())
    }

    pub fn build() -> (c: Self)
        ensures
            c.spec_shapes() == Seq::<S>::empty(),
    {
        Self(Vec::new())
    }

    /// Adds the pieces `shape` breaks into, in order.
    pub fn push<T: TypedCompoundShape<S>>(&mut self, shape: T)
        ensures
            final(self).spec_shapes() == old(self).spec_shapes() + shape.spec_typed_geometry(),
    {
        let mut pieces = shape.into_typed_geometry_iterator();
        self.0.append(&mut pieces);
    }

    /// The collection with the pieces of `shape` added.
    pub fn extend_with_shape<T: TypedCompoundShape<S>>(self, shape: T) -> (c: Self)
        ensures
            c.spec_shapes() == self.spec_shapes() + shape.spec_typed_geometry(),
    {
        let mut s = self;
        s.push(shape);
        s
    }

    /// The shapes, in order.
    pub fn iter<'a>(&'a self) -> (it: std::slice::Iter<'a, S>)
        ensures
            vstd::std_specs::iter::IteratorSpec::remaining(&it) == self.spec_shapes().as_ref(),
    {
        self.0.as_slice().iter()
    }

    /// Where the ray meets the collection: each shape is tested in turn, and the nearest hit
    /// is kept, the first of the nearest where several are equally near. Every shape's
    /// tests are counted into `stats`.
    pub fn intersect<B, H, Q: VolumeQuery<S, B, H>, C: RenderStatsCollector>(
        &self,
        query: &Q,
        stats: &mut C,
    ) -> (r: Option<H>)
        requires
            list_hit_countable(*query, self.spec_shapes(), old(stats).collected()),
        ensures
            (r, final(stats).collected()) == spec_list_hit(
                *query,
                self.spec_shapes(),
                old(stats).collected(),
            ),
    {
        list_hit(self.0.as_slice(), query, stats)
    }

    /// The box around the collection: the empty box when it holds nothing, else the boxes of
    /// its shapes combined from first to last.
    pub fn bounding_box<C: VolumeBounds<S>>(&self, bounds: &C) -> (b: C::BoundingBox)
        ensures
            b == group_box(*bounds, self.spec_shapes()),
    {
        list_bounding_box(self.0.as_slice(), bounds)
    }
}

impl<S> TypedCompoundShape<S> for CollectionShape<S> {
    open spec fn spec_typed_geometry(&self) -> Seq<S> {
        self.spec_shapes()
    }

    /// The shapes of the collection are its pieces.
    fn into_typed_geometry_iterator(self) -> (v: Vec<S>) {
        self.0
    }
}

/// Things that can be gathered into one shape.
pub trait IntoShape {
    type Shape;

    fn into_shape(self) -> Self::Shape;
}

impl<S> IntoShape for Vec<S> {
    type Shape = CollectionShape<S>;

    fn into_shape(self) -> (c: CollectionShape<S>)
        ensures
            c.spec_shapes() == self@,
    {
        CollectionShape(self)
    }
}

} // verus!
