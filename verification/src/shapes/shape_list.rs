use vstd::prelude::*;

use super::shape::CompoundShape;
use super::volume::{
    group_box, list_bounding_box, list_hit, list_hit_countable, spec_list_hit, VolumeBounds,
    VolumeQuery,
};
use crate::stats::RenderStatsCollector;

verus! {

broadcast use vstd::std_specs::slice::axiom_spec_slice_iter;

/// A list of shapes, usually each of its own type behind a box.
#[derive(Debug)]
pub struct ShapeList<S> {
    shapes: Vec<S>,
}

impl<S> ShapeList<S> {
    /// The shapes held, in the order they were added.
    pub closed spec fn spec_shapes(&self) -> Seq<S> {
        self.shapes@
    }

    pub fn build() -> (l: Self)
        ensures
            l.spec_shapes() == Seq::<S>::empty(),
    {
        Self { shapes: Vec::new() }
    }

    /// Adds the pieces `shape` breaks into, in order.
    pub fn push<T: CompoundShape<S>>(&mut self, shape: T)
        ensures
            final(self).spec_shapes() == old(self).spec_shapes() + shape.spec_geometry(),
    {
        let mut pieces = shape.into_geometry_iterator();
        self.shapes.append(&mut pieces);
    }

    /// The list with the pieces of `shape` added.
    pub fn extend_with_shape<T: CompoundShape<S>>(self, shape: T) -> (l: Self)
        ensures
            l.spec_shapes() == self.spec_shapes() + shape.spec_geometry(),
    {
        let mut l = self;
        l.push(shape);
        l
    }

    /// The shapes, in order.
    pub fn iter<'a>(&'a self) -> (it: std::slice::Iter<'a, S>)
        ensures
            vstd::std_specs::iter::IteratorSpec::remaining(&it) == self.spec_shapes().as_ref(),
    {
        self.shapes.as_slice().iter()
    }

    /// Where the ray meets the list: each shape is tested in turn, and the nearest hit
    /// is kept, the first of the nearest where several are equally near. Every shape's
    /// tests are counted into `stats`.
    pub fn intersect<B, H, Q: VolumeQuery<S, B, H>, C: RenderStatsCollector>(
        &self,
        query: &Q,
        stats: &mut C,
    ) -> (r: Option<H>)
        requires
            list_hit_countable(*query, self.spec_shapes(), old(stats).collected()),
        ensures
            (r, final(stats).collected()) == spec_list_hit(
                *query,
                self.spec_shapes(),
                old(stats).collected(),
            ),
    {
        list_hit(self.shapes.as_slice(), query, stats)
    }

    /// The box around the list: the empty box when it holds nothing, else the boxes of
    /// its shapes combined from first to last.
    pub fn bounding_box<C: VolumeBounds<S>>(&self, bounds: &C) -> (b: C::BoundingBox)
        ensures
            b == group_box(*bounds, self.spec_shapes()),
    {
        list_bounding_box(self.shapes.as_slice(), bounds)
    }
}

impl<S> CompoundShape<S> for ShapeList<S> {
    open spec fn spec_geometry(&self) -> Seq<S> {
        self.spec_shapes()
    }

    /// The shapes of the list are its pieces.
    fn into_geometry_iterator(self) -> (v: Vec<S>) {
        self.shapes
    }
}

} // verus!
