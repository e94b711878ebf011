use vstd::prelude::*;

use crate::skinnable::DefaultSkinnable;
use crate::transform::DefaultTransformable;

verus! {

/// A paraboloid given by its extremum, its focus and the radius at which it is cut off.
#[derive(Debug, Clone)]
pub struct ParabolaXY<P, F> {
    extremum_point: P,
    focus_point: P,
    pr: F,
}

impl<P, F> ParabolaXY<P, F> {
    pub closed spec fn spec_extremum_point(&self) -> P {
        self.extremum_point
    }

    pub closed spec fn spec_focus_point(&self) -> P {
        self.focus_point
    }

    pub closed spec fn spec_radius(&self) -> F {
        self.pr
    }

    pub fn extremum_point(&self) -> (p: &P)
        ensures
            *p == self.spec_extremum_point(),
    {
        &self.extremum_point
    }

    pub fn focus_point(&self) -> (p: &P)
        ensures
            *p == self.spec_focus_point(),
    {
        &self.focus_point
    }

    pub fn radius(&self) -> (r: &F)
        ensures
            *r == self.spec_radius(),
    {
        &self.pr
    }
}

/// A paraboloid with its extremum at `extremum_point`, opening towards `focus_point`,
/// cut off at `radius` from its axis.
pub fn parabola<P, F>(extremum_point: P, focus_point: P, radius: F) -> (p: ParabolaXY<P, F>)
    ensures
        p.spec_extremum_point() == extremum_point,
        p.spec_focus_point() == focus_point,
        p.spec_radius() == radius,
{
    ParabolaXY { extremum_point, focus_point, pr: radius }
}

impl<P, F> DefaultTransformable for ParabolaXY<P, F> {}

impl<P, F> DefaultSkinnable for ParabolaXY<P, F> {}

} // verus!
