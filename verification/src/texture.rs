use std::sync::Arc;
use vstd::prelude::*;

verus! {

/// A colour that varies over a surface: the colour at point `p` with surface coordinates
/// `u` and `v`.
pub trait Texture<P, F, C> {
    /// Whether `c` is a colour that the texture gives at `p`, `u`, `v`.
    spec fn spec_value_is(&self, p: P, u: F, v: F, c: C) -> bool;

    fn value(&self, p: P, u: F, v: F) -> (c: C)
        ensures
            self.spec_value_is(p, u, v, c),
    ;
}

/// A point that can tell in which square of a checker pattern it lies.
pub trait CheckerPoint {
    /// Whether the point lies in a square of the pattern's first texture.
    spec fn spec_in_first_square(&self) -> bool;

    /// Whether the point lies in a square of the pattern's first texture.
    fn in_first_square(&self) -> (b: bool)
        ensures
            b == self.spec_in_first_square(),
    ;
}

/// The same colour everywhere.
#[derive(Debug, Clone)]
pub struct SolidTexture<C>(C);

impl<C> SolidTexture<C> {
    pub closed spec fn spec_color(&self) -> C {
        self.0
    }

    pub fn new(color: C) -> (t: Self)
        ensures
            t.spec_color() == color,
    {
        SolidTexture(color)
    }

    pub fn color(&self) -> (c: &C)
        ensures
            *c == self.spec_color(),
    {
        &self.0
    }
}

impl<P, F, C: Copy> Texture<P, F, C> for SolidTexture<C> {
    /// A solid texture gives its colour everywhere.
    open spec fn spec_value_is(&self, p: P, u: F, v: F, c: C) -> bool {
        c == self.spec_color()
    }

    fn value(&self, p: P, u: F, v: F) -> (c: C) {
        *self.color()
    }
}

/// Two textures laid out in a three-dimensional checker pattern.
#[derive(Debug)]
pub struct CheckerTexture<T1, T2>(Arc<T1>, Arc<T2>);

impl<T1, T2> Clone for CheckerTexture<T1, T2> {
    fn clone(&self) -> (t: Self)
        ensures
            t.spec_texture1() == self.spec_texture1(),
            t.spec_texture2() == self.spec_texture2(),
    {
        CheckerTexture(self.0.clone(), self.1.clone())
    }
}

impl<T1, T2> CheckerTexture<T1, T2> {
    pub closed spec fn spec_texture1(&self) -> T1 {
        *self.0
    }

    pub closed spec fn spec_texture2(&self) -> T2 {
        *self.1
    }

    pub fn new(texture1: Arc<T1>, texture2: Arc<T2>) -> (t: Self)
        ensures
            t.spec_texture1() == *texture1,
            t.spec_texture2() == *texture2,
    {
        CheckerTexture(texture1, texture2)
    }

    pub fn texture1(&self) -> (t: &T1)
        ensures
            *t == self.spec_texture1(),
    {
        &*self.0
    }

    pub fn texture2(&self) -> (t: &T2)
        ensures
            *t == self.spec_texture2(),
    {
        &*self.1
    }
}

impl<P: CheckerPoint, F, C, T1: Texture<P, F, C>, T2: Texture<P, F, C>> Texture<P, F, C> for CheckerTexture<
    T1,
    T2,
> {
    /// A checker texture gives the colour of its first texture in the squares of the
    /// first texture, and the colour of its second texture in the others.
    open spec fn spec_value_is(&self, p: P, u: F, v: F, c: C) -> bool {
        if p.spec_in_first_square() {
            self.spec_texture1().spec_value_is(p, u, v, c)
        } else {
            self.spec_texture2().spec_value_is(p, u, v, c)
        }
    }

    fn value(&self, p: P, u: F, v: F) -> (c: C) {
        if p.in_first_square() {
            self.texture1().value(p, u, v)
        } else {
            self.texture2().value(p, u, v)
        }
    }
}

/// A checker texture passes the point and both surface coordinates on unchanged: at
/// `(p, u, v)` it gives exactly the colours its first texture gives at `(p, u, v)` where
/// `p` lies in a first-texture square, and exactly those its second texture gives at
/// `(p, u, v)` elsewhere.
pub proof fn lemma_checker_value_at_same_coordinates<
    P: CheckerPoint,
    F,
    C,
    T1: Texture<P, F, C>,
    T2: Texture<P, F, C>,
>(texture: CheckerTexture<T1, T2>, p: P, u: F, v: F, c: C)
    ensures
        p.spec_in_first_square() ==> (texture.spec_value_is(p, u, v, c)
            == texture.spec_texture1().spec_value_is(p, u, v, c)),
        !p.spec_in_first_square() ==> (texture.spec_value_is(p, u, v, c)
            == texture.spec_texture2().spec_value_is(p, u, v, c)),
{
}

/// A shared solid texture.
pub fn solid_texture<C>(color: C) -> (t: Arc<SolidTexture<C>>)
    ensures
        t.spec_color() == color,
{
    Arc::new(SolidTexture::new(color))
}

/// A shared checker texture of two shared textures.
pub fn checker_texture<T1, T2>(texture1: Arc<T1>, texture2: Arc<T2>) -> (t: Arc<
    CheckerTexture<T1, T2>,
>)
    ensures
        t.spec_texture1() == *texture1,
        t.spec_texture2() == *texture2,
{
    Arc::new(CheckerTexture::new(texture1, texture2))
}

} // verus!
