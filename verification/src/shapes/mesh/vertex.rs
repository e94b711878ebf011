use vstd::prelude::*;

verus! {

/// One corner of a mesh with everything a hit needs: its position, texture
/// coordinates, surface normal and tangent.
#[derive(Debug, Clone)]
pub struct TriangleVertex<P, U, N> {
    pos: P,
    uv: U,
    surface_normal: N,
    tangent: N,
}

impl<P: Copy, U: Copy, N: Copy> TriangleVertex<P, U, N> {
    pub closed spec fn spec_pos(&self) -> P {
        self.pos
    }

    pub closed spec fn spec_uv(&self) -> U {
        self.uv
    }

    pub closed spec fn spec_surface_normal(&self) -> N {
        self.surface_normal
    }

    pub closed spec fn spec_tangent(&self) -> N {
        self.tangent
    }

    pub fn new(pos: P, uv: U, surface_normal: N, tangent: N) -> (v: Self)
        ensures
            v.spec_pos() == pos,
            v.spec_uv() == uv,
            v.spec_surface_normal() == surface_normal,
            v.spec_tangent() == tangent,
    {
        Self { pos, uv, surface_normal, tangent }
    }

    pub fn pos(&self) -> (p: P)
        ensures
            p == self.spec_pos(),
    {
        self.pos
    }

    pub fn uv(&self) -> (u: U)
        ensures
            u == self.spec_uv(),
    {
        self.uv
    }

    pub fn surface_normal(&self) -> (n: N)
        ensures
            n == self.spec_surface_normal(),
    {
        self.surface_normal
    }

    pub fn tangent(&self) -> (t: N)
        ensures
            t == self.spec_tangent(),
    {
        self.tangent
    }
}

} // verus!
