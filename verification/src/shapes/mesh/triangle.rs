use vstd::prelude::*;

use crate::shapes::primitive::UntransformedPrimitive;

use super::tri_mesh::{tuple_error, VertexTuple};

verus! {

/// One triangle of a mesh, seen through its three vertex tuples.
#[derive(Debug, Clone)]
pub struct Triangle<'a, P, U, N> {
    vertex_indices: &'a [VertexTuple],
    vertices: &'a [P],
    uvs: &'a [U],
    normals: &'a [N],
    tangents: &'a [N],
}

/// Three tuples, each naming entries that the lists hold.
pub open spec fn corners_ok<P, U, N>(
    vertex_indices: Seq<VertexTuple>,
    vertices: Seq<P>,
    uvs: Seq<U>,
    normals: Seq<N>,
    tangents: Seq<N>,
) -> bool {
    &&& vertex_indices.len() == 3
    &&& forall|i: int|
        0 <= i < 3 ==> tuple_error(
            #[trigger] vertex_indices[i],
            vertices.len(),
            uvs.len(),
            normals.len(),
            tangents.len(),
        ) is None
}

/// An optional reference that is present exactly when `v` is, and then points at its value.
pub open spec fn refers_to<T>(r: Option<&T>, v: Option<T>) -> bool {
    match v {
        Some(x) => r matches Some(y) && *y == x,
        None => r is None,
    }
}

impl<'a, P, U, N> Triangle<'a, P, U, N> {
    pub closed spec fn spec_indices(&self) -> Seq<VertexTuple> {
        self.vertex_indices@
    }

    pub closed spec fn spec_vertices(&self) -> Seq<P> {
        self.vertices@
    }

    pub closed spec fn spec_uvs(&self) -> Seq<U> {
        self.uvs@
    }

    pub closed spec fn spec_normals(&self) -> Seq<N> {
        self.normals@
    }

    pub closed spec fn spec_tangents(&self) -> Seq<N> {
        self.tangents@
    }

    pub open spec fn wf(&self) -> bool {
        corners_ok(
            self.spec_indices(),
            self.spec_vertices(),
            self.spec_uvs(),
            self.spec_normals(),
            self.spec_tangents(),
        )
    }

    /// A triangle over three tuples; every tuple must name entries that the lists hold.
    pub fn new(
        vertex_indices: &'a [VertexTuple],
        vertices: &'a [P],
        uvs: &'a [U],
        normals: &'a [N],
        tangents: &'a [N],
    ) -> (t: Self)
        requires
            corners_ok(vertex_indices@, vertices@, uvs@, normals@, tangents@),
        ensures
            t.wf(),
            t.spec_indices() == vertex_indices@,
            t.spec_vertices() == vertices@,
            t.spec_uvs() == uvs@,
            t.spec_normals() == normals@,
            t.spec_tangents() == tangents@,
    {
        Self::new_unchecked(vertex_indices, vertices, uvs, normals, tangents)
    }

    pub(crate) fn new_unchecked(
        vertex_indices: &'a [VertexTuple],
        vertices: &'a [P],
        uvs: &'a [U],
        normals: &'a [N],
        tangents: &'a [N],
    ) -> (t: Self)
        requires
            corners_ok(vertex_indices@, vertices@, uvs@, normals@, tangents@),
        ensures
            t.wf(),
            t.spec_indices() == vertex_indices@,
            t.spec_vertices() == vertices@,
            t.spec_uvs() == uvs@,
            t.spec_normals() == normals@,
            t.spec_tangents() == tangents@,
    {
        Self { vertex_indices, vertices, uvs, normals, tangents }
    }

    /// What corner `idx` holds: its position, and its texture coordinates, normal and
    /// tangent where the tuple names them.
    pub open spec fn spec_vertex(&self, idx: int) -> (P, Option<U>, Option<N>, Option<N>) {
        let vt = self.spec_indices()[idx];
        (
            self.spec_vertices()[vt.vertex as int],
            match vt.uv {
                Some(u) => Some(self.spec_uvs()[u as int]),
                None => None,
            },
            match vt.normal {
                Some(n) => Some(self.spec_normals()[n as int]),
                None => None,
            },
            match vt.tangent {
                Some(t) => Some(self.spec_tangents()[t as int]),
                None => None,
            },
        )
    }

    /// Corner `idx` (0, 1 or 2) of the triangle.
    pub(crate) fn vertex(&self, idx: usize) -> (r: (&'a P, Option<&'a U>, Option<&'a N>, Option<&'a N>))
        requires
            self.wf(),
            idx < 3,
        ensures
            *r.0 == self.spec_vertex(idx as int).0,
            refers_to(r.1, self.spec_vertex(idx as int).1),
            refers_to(r.2, self.spec_vertex(idx as int).2),
            refers_to(r.3, self.spec_vertex(idx as int).3),
    {
        self.vertex_unchecked(idx)
    }

    pub(crate) fn vertex_unchecked(&self, idx: usize) -> (r: (&'a P, Option<&'a U>, Option<&'a N>, Option<&'a N>))
        requires
            self.wf(),
            idx < 3,
        ensures
            *r.0 == self.spec_vertex(idx as int).0,
            refers_to(r.1, self.spec_vertex(idx as int).1),
            refers_to(r.2, self.spec_vertex(idx as int).2),
            refers_to(r.3, self.spec_vertex(idx as int).3),
    {
        let vertex_tuple = &self.vertex_indices[idx];
        let uv = match vertex_tuple.uv {
            Some(uv_idx) => Some(&self.uvs[uv_idx]),
            None => None,
        };
        let normal = match vertex_tuple.normal {
            Some(normal_idx) => Some(&self.normals[normal_idx]),
            None => None,
        };
        let tangent = match vertex_tuple.tangent {
            Some(tangent_idx) => Some(&self.tangents[tangent_idx]),
            None => None,
        };
        (&self.vertices[vertex_tuple.vertex], uv, normal, tangent)
    }
}

impl<'a, P, U, N> UntransformedPrimitive for Triangle<'a, P, U, N> {}

} // verus!
