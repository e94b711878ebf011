use vstd::prelude::*;

use super::geometry_wrapper::{geometry_wrapper, GeometryWrapper};

verus! {

/// A modifier that scales a shape by a factor along each axis.
#[derive(Debug, Clone)]
pub struct Scale<V>(V);

impl<V> Scale<V> {
    pub closed spec fn spec_scale(&self) -> V {
        self.0
    }

    /// The factors along each axis.
    pub fn scale(&self) -> (s: &V)
        ensures
            *s == self.spec_scale(),
    {
        &self.0
    }
}

/// `child` scaled by `factors` along each axis.
pub fn scale<V, T>(factors: V, child: T) -> (w: GeometryWrapper<Scale<V>, T>)
    ensures
        w.spec_modifier().spec_scale() == factors,
        w.spec_child() == child,
{
    geometry_wrapper(Scale(factors), child)
}

} // verus!
