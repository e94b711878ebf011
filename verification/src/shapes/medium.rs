use std::sync::Arc;
use vstd::prelude::*;

verus! {

/// A volume of participating medium: a child shape filled with a density, scattering
/// light by a phase material.
#[derive(Debug)]
pub struct Medium<D, Ph, C> {
    density: D,
    phase: Arc<Ph>,
    child: C,
}

impl<D, Ph, C> Medium<D, Ph, C> {
    pub closed spec fn spec_density(&self) -> D {
        self.density
    }

    pub closed spec fn spec_phase(&self) -> Ph {
        *self.phase
    }

    pub closed spec fn spec_child(&self) -> C {
        self.child
    }

    pub fn new(density: D, child: C, phase: Ph) -> (m: Self)
        ensures
            m.spec_density() == density,
            m.spec_child() == child,
            m.spec_phase() == phase,
    {
        Medium { density, child, phase: Arc::new(phase) }
    }

    pub fn density(&self) -> (d: &D)
        ensures
            *d == self.spec_density(),
    {
        &self.density
    }

    pub fn phase(&self) -> (p: &Arc<Ph>)
        ensures
            **p == self.spec_phase(),
    {
        &self.phase
    }

    pub fn child(&self) -> (c: &C)
        ensures
            *c == self.spec_child(),
    {
        &self.child
    }
}

/// A material that scatters light equally in all directions, coloured by a texture.
#[derive(Debug, Clone)]
pub struct Isotropic<A>(pub A);

/// `child` filled with `density`, scattering by `phase`.
pub fn medium<D, Ph, C>(density: D, child: C, phase: Ph) -> (m: Medium<D, Ph, C>)
    ensures
        m.spec_density() == density,
        m.spec_child() == child,
        m.spec_phase() == phase,
{
    Medium::new(density, child, phase)
}

/// The isotropic material coloured by `albedo`.
pub fn isotropic<A>(albedo: A) -> (i: Isotropic<A>)
    ensures
        i.0 == albedo,
{
    Isotropic(albedo)
}

} // verus!
