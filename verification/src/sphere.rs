use vstd::prelude::*;

verus! {

/// A sphere of one material, standing still.
#[derive(Debug, Clone)]
pub struct Sphere<P, F, M> {
    center: P,
    radius: F,
    material: M,
}

impl<P, F, M> Sphere<P, F, M> {
    pub closed spec fn spec_center(&self) -> P {
        self.center
    }

    pub closed spec fn spec_radius(&self) -> F {
        self.radius
    }

    pub closed spec fn spec_material(&self) -> M {
        self.material
    }

    pub fn new(center: P, radius: F, material: M) -> (s: Self)
        ensures
            s.spec_center() == center,
            s.spec_radius() == radius,
            s.spec_material() == material,
    {
        Sphere { center, radius, material }
    }

    pub fn center(&self) -> (c: &P)
        ensures
            *c == self.spec_center(),
    {
        &self.center
    }

    pub fn radius(&self) -> (r: &F)
        ensures
            *r == self.spec_radius(),
    {
        &self.radius
    }

    pub fn material(&self) -> (m: &M)
        ensures
            *m == self.spec_material(),
    {
        &self.material
    }
}

/// A sphere of one material that moves in a straight line: it is at the first point at
/// the first time and at the second point at the second time.
#[derive(Debug)]
pub struct MovingSphere<P, F, M> {
    center0: (P, F),
    center1: (P, F),
    radius: F,
    material: M,
}

impl<P, F, M> MovingSphere<P, F, M> {
    pub closed spec fn spec_center0(&self) -> (P, F) {
        self.center0
    }

    pub closed spec fn spec_center1(&self) -> (P, F) {
        self.center1
    }

    pub closed spec fn spec_radius(&self) -> F {
        self.radius
    }

    pub closed spec fn spec_material(&self) -> M {
        self.material
    }

    pub fn new(center0: (P, F), center1: (P, F), radius: F, material: M) -> (s: Self)
        ensures
            s.spec_center0() == center0,
            s.spec_center1() == center1,
            s.spec_radius() == radius,
            s.spec_material() == material,
    {
        MovingSphere { center0, center1, radius, material }
    }

    /// Where the sphere is at the first time, and that time.
    pub fn center0(&self) -> (c: &(P, F))
        ensures
            *c == self.spec_center0(),
    {
        &self.center0
    }

    /// Where the sphere is at the second time, and that time.
    pub fn center1(&self) -> (c: &(P, F))
        ensures
            *c == self.spec_center1(),
    {
        &self.center1
    }

    pub fn radius(&self) -> (r: &F)
        ensures
            *r == self.spec_radius(),
    {
        &self.radius
    }

    pub fn material(&self) -> (m: &M)
        ensures
            *m == self.spec_material(),
    {
        &self.material
    }
}

impl<P: Clone, F: Clone, M: Clone> Clone for MovingSphere<P, F, M> {
    fn clone(&self) -> (s: Self) {
        MovingSphere {
            center0: (self.center0.0.clone(), self.center0.1.clone()),
            center1: (self.center1.0.clone(), self.center1.1.clone()),
            radius: self.radius.clone(),
            material: self.material.clone(),
        }
    }
}

} // verus!
