use vstd::prelude::*;

verus! {

/// What a ray that hits nothing sees.
#[derive(Debug, Clone, Copy)]
pub enum Sky<C> {
    /// The blue-to-white gradient of a daytime sky, which depends on the ray's direction.
    RegularSky,
    /// One colour in every direction.
    ColorSky(C),
}

impl<C: Copy> Sky<C> {
    /// The colour seen along a ray: a colour sky gives its colour, a regular sky the
    /// gradient colour that `gradient` computes for the ray.
    pub fn sample<G: FnOnce() -> C>(&self, gradient: G) -> (c: C)
        requires
            self is RegularSky ==> gradient.requires(()),
        ensures
            self matches Sky::ColorSky(color) ==> c == color,
            self is RegularSky ==> gradient.ensures((), c),
    {
        match self {
            Sky::RegularSky => gradient(),
            Sky::ColorSky(color) => *color,
        }
    }
}

/// The daytime gradient sky.
pub fn regular_sky<C>() -> (s: Sky<C>)
    ensures
        s is RegularSky,
{
    Sky::RegularSky
}

/// A sky of one colour.
pub fn color_sky<C>(color: C) -> (s: Sky<C>)
    ensures
        s == Sky::ColorSky(color),
{
    Sky::ColorSky(color)
}

} // verus!
