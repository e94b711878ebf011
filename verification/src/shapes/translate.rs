use vstd::prelude::*;

use super::geometry_wrapper::{geometry_wrapper, GeometryWrapper};

verus! {

/// A modifier that moves a shape by a fixed offset.
#[derive(Debug, Clone)]
pub struct Translator<V>(V);

impl<V> Translator<V> {
    pub closed spec fn spec_offset(&self) -> V {
        self.0
    }

    /// How far the shape is moved.
    pub fn offset(&self) -> (o: &V)
        ensures
            *o == self.spec_offset(),
    {
        &self.0
    }
}

/// `child` moved by `offset`.
pub fn translate<V, T>(offset: V, child: T) -> (w: GeometryWrapper<Translator<V>, T>)
    ensures
        w.spec_modifier().spec_offset() == offset,
        w.spec_child() == child,
{
    geometry_wrapper(Translator(offset), child)
}

} // verus!
