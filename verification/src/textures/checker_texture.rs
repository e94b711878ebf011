use vstd::prelude::*;

use super::texture::Texture;
use crate::texture::CheckerPoint;

verus! {

/// Two textures laid out in a three-dimensional checker pattern.
#[derive(Debug, Clone)]
pub struct CheckerTexture<T1, T2>(T1, T2);

impl<T1, T2> CheckerTexture<T1, T2> {
    pub closed spec fn spec_texture1(&self) -> T1 {
        self.0
    }

    pub closed spec fn spec_texture2(&self) -> T2 {
        self.1
    }

    pub fn new(texture1: T1, texture2: T2) -> (t: Self)
        ensures
            t.spec_texture1() == texture1,
            t.spec_texture2() == texture2,
    {
        CheckerTexture(texture1, texture2)
    }

    pub fn texture1(&self) -> (t: &T1)
        ensures
            *t == self.spec_texture1(),
    {
        &self.0
    }

    pub fn texture2(&self) -> (t: &T2)
        ensures
            *t == self.spec_texture2(),
    {
        &self.1
    }
}

impl<P: CheckerPoint, U, C, T1: Texture<P, U, C>, T2: Texture<P, U, C>> Texture<P, U, C> for CheckerTexture<
    T1,
    T2,
> {
    /// A checker texture gives the colour of its first texture in the squares of the
    /// first texture, and the colour of its second texture in the others.
    open spec fn spec_value_is(&self, p: P, uv: U, c: C) -> bool {
        if p.spec_in_first_square() {
            self.spec_texture1().spec_value_is(p, uv, c)
        } else {
            self.spec_texture2().spec_value_is(p, uv, c)
        }
    }

    fn value(&self, p: P, uv: U) -> (c: C) {
        if p.in_first_square() {
            self.texture1().value(p, uv)
        } else {
            self.texture2().value(p, uv)
        }
    }
}

/// A checker texture passes the point and the surface coordinates on unchanged: at
/// `(p, uv)` it gives exactly the colours its first texture gives at `(p, uv)` where `p`
/// lies in a first-texture square, and exactly those its second texture gives at
/// `(p, uv)` elsewhere.
pub proof fn lemma_checker_value_at_same_coordinates<
    P: CheckerPoint,
    U,
    C,
    T1: Texture<P, U, C>,
    T2: Texture<P, U, C>,
>(texture: CheckerTexture<T1, T2>, p: P, uv: U, c: C)
    ensures
        p.spec_in_first_square() ==> (texture.spec_value_is(p, uv, c)
            == texture.spec_texture1().spec_value_is(p, uv, c)),
        !p.spec_in_first_square() ==> (texture.spec_value_is(p, uv, c)
            == texture.spec_texture2().spec_value_is(p, uv, c)),
{
}

/// A checker pattern of `texture1` and `texture2`.
pub fn checker_texture<T1, T2>(texture1: T1, texture2: T2) -> (t: CheckerTexture<T1, T2>)
    ensures
        t.spec_texture1() == texture1,
        t.spec_texture2() == texture2,
{
    CheckerTexture::new(texture1, texture2)
}

} // verus!
