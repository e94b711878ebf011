use vstd::prelude::*;

use super::texture::Texture;

verus! {

/// The same colour everywhere.
#[derive(Debug, Clone)]
pub struct SolidTexture<C>(C);

impl<C> SolidTexture<C> {
    pub closed spec fn spec_color(&self) -> C {
        self.0
    }

    pub fn new(color: C) -> (t: Self)
        ensures
            t.spec_color() == color,
    {
        SolidTexture(color)
    }

    pub fn color(&self) -> (c: &C)
        ensures
            *c == self.spec_color(),
    {
        &self.0
    }
}

impl<P, U, C: Copy> Texture<P, U, C> for SolidTexture<C> {
    /// A solid texture gives its colour everywhere.
    open spec fn spec_value_is(&self, p: P, uv: U, c: C) -> bool {
        c == self.spec_color()
    }

    fn value(&self, p: P, uv: U) -> (c: C) {
        *self.color()
    }
}

/// A solid texture of `color`.
pub fn solid_texture<C>(color: C) -> (t: SolidTexture<C>)
    ensures
        t.spec_color() == color,
{
    SolidTexture::new(color)
}

} // verus!
