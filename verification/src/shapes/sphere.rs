use vstd::prelude::*;

use super::primitive::UntransformedPrimitive;

verus! {

/// A sphere given by its centre and radius.
#[derive(Clone, Debug)]
pub struct Sphere<P, F> {
    center: P,
    radius: F,
}

impl<P, F> Sphere<P, F> {
    pub closed spec fn spec_center(&self) -> P {
        self.center
    }

    pub closed spec fn spec_radius(&self) -> F {
        self.radius
    }

    pub fn new(center: P, radius: F) -> (s: Self)
        ensures
            s.spec_center() == center,
            s.spec_radius() == radius,
    {
        Self { center, radius }
    }

    pub fn center(&self) -> (c: &P)
        ensures
            *c == self.spec_center(),
    {
        &self.center
    }

    pub fn radius(&self) -> (r: &F)
        ensures
            *r == self.spec_radius(),
    {
        &self.radius
    }
}

impl<P, F> UntransformedPrimitive for Sphere<P, F> {}

} // verus!
