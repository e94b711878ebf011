use vstd::prelude::*;

use crate::skinnable::DefaultSkinnable;
use crate::transform::DefaultTransformable;

use super::vertex::TriangleVertex;
use super::MeshError;

verus! {

/// How many triangles the intersection structure groups together.
pub const TRIANGLE_MESH_GROUP_SIZE: usize = 128;

/// One corner of a triangle: the index of its position, and optionally of its texture
/// coordinates, normal and tangent.
#[derive(Clone, Copy, Debug, PartialEq, Eq, Structural)]
pub struct VertexTuple {
    pub vertex: usize,
    pub uv: Option<usize>,
    pub normal: Option<usize>,
    pub tangent: Option<usize>,
}

/// What is wrong with a vertex tuple against lists of these lengths, if anything: the
/// position is checked first, then the texture coordinates, the normal and the tangent.
pub open spec fn tuple_error(vt: VertexTuple, nv: nat, nu: nat, nn: nat, nt: nat) -> Option<MeshError> {
    if vt.vertex >= nv {
        Some(MeshError::VertexOutOfRange(vt.vertex))
    } else if vt.uv matches Some(u) && u >= nu {
        Some(MeshError::UvOutOfRange(vt.uv->0))
    } else if vt.normal matches Some(n) && n >= nn {
        Some(MeshError::NormalOutOfRange(vt.normal->0))
    } else if vt.tangent matches Some(t) && t >= nt {
        Some(MeshError::TangentOutOfRange(vt.tangent->0))
    } else {
        None
    }
}

/// The error of the first faulty tuple of `ts`, if any.
pub open spec fn first_tuple_error(ts: Seq<VertexTuple>, nv: nat, nu: nat, nn: nat, nt: nat) -> Option<
    MeshError,
>
    decreases ts.len(),
{
    if ts.len() == 0 {
        None
    } else {
        match first_tuple_error(ts.drop_last(), nv, nu, nn, nt) {
            Some(e) => Some(e),
            None => tuple_error(ts.last(), nv, nu, nn, nt),
        }
    }
}

/// The tuple that `from_split` stores for a checked tuple: the position index is kept
/// and also used for the texture coordinates, the normal and the tangent.
pub open spec fn stored_tuple(vt: VertexTuple) -> VertexTuple {
    VertexTuple { vertex: vt.vertex, uv: Some(vt.vertex), normal: Some(vt.vertex), tangent: Some(vt.vertex) }
}

/// A triangle mesh whose corners carry their own texture coordinates, normals and
/// tangents, each looked up through a vertex tuple.
#[derive(Debug, Clone)]
pub struct TriangleMesh<P, U, N> {
    triangles: Vec<VertexTuple>,
    vertices: Vec<P>,
    uvs: Vec<U>,
    normals: Vec<N>,
    tangents: Vec<N>,
}

impl<P, U, N> TriangleMesh<P, U, N> {
    pub closed spec fn spec_triangles(&self) -> Seq<VertexTuple> {
        self.triangles@
    }

    pub closed spec fn spec_vertices(&self) -> Seq<P> {
        self.vertices@
    }

    pub closed spec fn spec_uvs(&self) -> Seq<U> {
        self.uvs@
    }

    pub closed spec fn spec_normals(&self) -> Seq<N> {
        self.normals@
    }

    pub closed spec fn spec_tangents(&self) -> Seq<N> {
        self.tangents@
    }

    /// The corners split into triangles and every corner names a position.
    pub open spec fn wf(&self) -> bool {
        &&& self.spec_triangles().len() % 3 == 0
        &&& forall|i: int|
            0 <= i < self.spec_triangles().len() ==> (#[trigger] self.spec_triangles()[i]).vertex
                < self.spec_vertices().len()
    }

    /// What `from_split` gives for these lists.
    pub open spec fn from_split_outcome(
        triangles: Seq<VertexTuple>,
        vertices: Seq<P>,
        uvs: Seq<U>,
        normals: Seq<N>,
        tangents: Seq<N>,
        r: Result<Self, MeshError>,
    ) -> bool {
        match first_tuple_error(triangles, vertices.len(), uvs.len(), normals.len(), tangents.len()) {
            Some(e) => r == Err::<Self, MeshError>(e),
            None => if triangles.len() % 3 == 0 {
                r matches Ok(m) && m.wf() && m.spec_triangles() == triangles.map_values(
                    |vt: VertexTuple| stored_tuple(vt),
                ) && m.spec_vertices() == vertices && m.spec_uvs() == uvs && m.spec_normals()
                    == normals && m.spec_tangents() == tangents
            } else {
                r == Err::<Self, MeshError>(MeshError::NotMultipleOfThree)
            },
        }
    }

    /// Builds the mesh from lists that are known to be consistent.
    pub(crate) fn from_split_unchecked(
        triangles: Vec<VertexTuple>,
        vertices: Vec<P>,
        uvs: Vec<U>,
        normals: Vec<N>,
        tangents: Vec<N>,
    ) -> (m: Self)
        requires
            triangles@.len() % 3 == 0,
            forall|i: int|
                0 <= i < triangles@.len() ==> (#[trigger] triangles@[i]).vertex < vertices@.len(),
        ensures
            m.wf(),
            m.spec_triangles() == triangles@,
            m.spec_vertices() == vertices@,
            m.spec_uvs() == uvs@,
            m.spec_normals() == normals@,
            m.spec_tangents() == tangents@,
    {
        Self { triangles, vertices, uvs, normals, tangents }
    }

    /// Checks every tuple against the lists, then builds the mesh. The mesh keeps the
    /// position index of each tuple and uses it for the texture coordinates, the normal
    /// and the tangent too (`stored_tuple`), so `vertex` looks those up by the position
    /// index, whatever index the tuple gave them.
    pub fn from_split(
        triangles: Vec<VertexTuple>,
        vertices: Vec<P>,
        uvs: Vec<U>,
        normals: Vec<N>,
        tangents: Vec<N>,
    ) -> (r: Result<Self, MeshError>)
        ensures
            Self::from_split_outcome(triangles@, vertices@, uvs@, normals@, tangents@, r),
    {
        let ghost nv = vertices@.len();
        let ghost nu = uvs@.len();
        let ghost nn = normals@.len();
        let ghost nt = tangents@.len();
        let mut checked: Vec<VertexTuple> = Vec::new();
        let mut i: usize = 0;
        while i < triangles.len()
            invariant
                i <= triangles@.len(),
                nv == vertices@.len(),
                nu == uvs@.len(),
                nn == normals@.len(),
                nt == tangents@.len(),
                first_tuple_error(triangles@.take(i as int), nv, nu, nn, nt) is None,
                checked@ == triangles@.take(i as int).map_values(|vt: VertexTuple| stored_tuple(vt)),
                forall|j: int| 0 <= j < i ==> (#[trigger] triangles@[j]).vertex < nv,
            decreases triangles@.len() - i,
        {
            let vt = triangles[i];
            proof {
                assert(triangles@.take(i + 1).drop_last() =~= triangles@.take(i as int));
                assert(triangles@.take(i + 1).last() == vt);
            }
            if vt.vertex >= vertices.len() {
                proof {
                    lemma_first_error_extends(triangles@, i + 1, nv, nu, nn, nt);
                }
                return Err(MeshError::VertexOutOfRange(vt.vertex));
            }
            if let Some(uv) = vt.uv {
                if uv >= uvs.len() {
                    proof {
                        lemma_first_error_extends(triangles@, i + 1, nv, nu, nn, nt);
                    }
                    return Err(MeshError::UvOutOfRange(uv));
                }
            }
            if let Some(normal) = vt.normal {
                if normal >= normals.len() {
                    proof {
                        lemma_first_error_extends(triangles@, i + 1, nv, nu, nn, nt);
                    }
                    return Err(MeshError::NormalOutOfRange(normal));
                }
            }
            if let Some(tangent) = vt.tangent {
                if tangent >= tangents.len() {
                    proof {
                        lemma_first_error_extends(triangles@, i + 1, nv, nu, nn, nt);
                    }
                    return Err(MeshError::TangentOutOfRange(tangent));
                }
            }
            checked.push(
                VertexTuple {
                    vertex: vt.vertex,
                    uv: Some(vt.vertex),
                    normal: Some(vt.vertex),
                    tangent: Some(vt.vertex),
                },
            );
            proof {
                assert(checked@ =~= triangles@.take(i + 1).map_values(
                    |vt: VertexTuple| stored_tuple(vt),
                ));
            }
            i = i + 1;
        }
        proof {
            assert(triangles@.take(i as int) =~= triangles@);
        }
        if checked.len() % 3 == 0 {
            Ok(Self::from_split_unchecked(checked, vertices, uvs, normals, tangents))
        } else {
            Err(MeshError::NotMultipleOfThree)
        }
    }
}

/// Once a prefix of `ts` holds a faulty tuple, the first error of the whole of `ts` is
/// the first error of that prefix.
proof fn lemma_first_error_extends(ts: Seq<VertexTuple>, k: int, nv: nat, nu: nat, nn: nat, nt: nat)
    requires
        0 <= k <= ts.len(),
        first_tuple_error(ts.take(k), nv, nu, nn, nt) is Some,
    ensures
        first_tuple_error(ts, nv, nu, nn, nt) == first_tuple_error(ts.take(k), nv, nu, nn, nt),
    decreases ts.len() - k,
{
    if k < ts.len() {
        assert(ts.take(k + 1).drop_last() =~= ts.take(k));
        lemma_first_error_extends(ts, k + 1, nv, nu, nn, nt);
    } else {
        assert(ts.take(k) =~= ts);
    }
}


/// The tuple that `TriangleMesh::new` makes for vertex `v`: every list is indexed by `v`.
pub open spec fn corner_tuple(v: usize) -> VertexTuple {
    VertexTuple { vertex: v, uv: Some(v), normal: Some(v), tangent: Some(v) }
}

impl<P: Copy, U: Copy, N: Copy> TriangleMesh<P, U, N> {
    /// Builds a mesh whose vertices carry all their attributes, splitting the vertices
    /// into one list per attribute.
    pub fn new(triangles: Vec<usize>, vertices: Vec<TriangleVertex<P, U, N>>) -> (r: Result<
        Self,
        MeshError,
    >)
        ensures
            Self::from_split_outcome(
                triangles@.map_values(|v: usize| corner_tuple(v)),
                vertices@.map_values(|tv: TriangleVertex<P, U, N>| tv.spec_pos()),
                vertices@.map_values(|tv: TriangleVertex<P, U, N>| tv.spec_uv()),
                vertices@.map_values(|tv: TriangleVertex<P, U, N>| tv.spec_surface_normal()),
                vertices@.map_values(|tv: TriangleVertex<P, U, N>| tv.spec_tangent()),
                r,
            ),
    {
        let mut positions: Vec<P> = Vec::new();
        let mut uvs: Vec<U> = Vec::new();
        let mut normals: Vec<N> = Vec::new();
        let mut tangents: Vec<N> = Vec::new();
        let mut i: usize = 0;
        while i < vertices.len()
            invariant
                i <= vertices@.len(),
                positions@ == vertices@.take(i as int).map_values(
                    |tv: TriangleVertex<P, U, N>| tv.spec_pos(),
                ),
                uvs@ == vertices@.take(i as int).map_values(|tv: TriangleVertex<P, U, N>| tv.spec_uv()),
                normals@ == vertices@.take(i as int).map_values(
                    |tv: TriangleVertex<P, U, N>| tv.spec_surface_normal(),
                ),
                tangents@ == vertices@.take(i as int).map_values(
                    |tv: TriangleVertex<P, U, N>| tv.spec_tangent(),
                ),
            decreases vertices@.len() - i,
        {
            positions.push(vertices[i].pos());
            uvs.push(vertices[i].uv());
            normals.push(vertices[i].surface_normal());
            tangents.push(vertices[i].tangent());
            proof {
                assert(positions@ =~= vertices@.take(i + 1).map_values(
                    |tv: TriangleVertex<P, U, N>| tv.spec_pos(),
                ));
                assert(uvs@ =~= vertices@.take(i + 1).map_values(
                    |tv: TriangleVertex<P, U, N>| tv.spec_uv(),
                ));
                assert(normals@ =~= vertices@.take(i + 1).map_values(
                    |tv: TriangleVertex<P, U, N>| tv.spec_surface_normal(),
                ));
                assert(tangents@ =~= vertices@.take(i + 1).map_values(
                    |tv: TriangleVertex<P, U, N>| tv.spec_tangent(),
                ));
            }
            i = i + 1;
        }
        let mut tuples: Vec<VertexTuple> = Vec::new();
        let mut j: usize = 0;
        while j < triangles.len()
            invariant
                j <= triangles@.len(),
                tuples@ == triangles@.take(j as int).map_values(|v: usize| corner_tuple(v)),
            decreases triangles@.len() - j,
        {
            let vertex = triangles[j];
            tuples.push(VertexTuple { vertex, uv: Some(vertex), normal: Some(vertex), tangent: Some(vertex) });
            proof {
                assert(tuples@ =~= triangles@.take(j + 1).map_values(|v: usize| corner_tuple(v)));
            }
            j = j + 1;
        }
        proof {
            assert(vertices@.take(i as int) =~= vertices@);
            assert(triangles@.take(j as int) =~= triangles@);
        }
        Self::from_split(tuples, positions, uvs, normals, tangents)
    }
}

impl<P, U, N> TriangleMesh<P, U, N> {
    /// The number of triangles.
    pub fn len(&self) -> (n: usize)
        ensures
            n == self.spec_triangles().len() / 3,
    {
        self.triangles.len() / 3
    }

    /// Whether corner `index` can be looked up: each index it holds names an entry.
    pub open spec fn corner_ok(&self, index: int) -> bool {
        &&& 0 <= index < self.spec_triangles().len()
        &&& self.spec_triangles()[index].vertex < self.spec_vertices().len()
        &&& self.spec_triangles()[index].uv matches Some(u) ==> u < self.spec_uvs().len()
        &&& self.spec_triangles()[index].normal matches Some(n) ==> n < self.spec_normals().len()
        &&& self.spec_triangles()[index].tangent matches Some(t) ==> t < self.spec_tangents().len()
    }

    /// Whether corner `index` can be looked up with `vertex`.
    pub fn has_corner(&self, index: usize) -> (b: bool)
        ensures
            b == self.corner_ok(index as int),
    {
        if index >= self.triangles.len() {
            return false;
        }
        let vt = &self.triangles[index];
        let uv_ok = match vt.uv {
            Some(u) => u < self.uvs.len(),
            None => true,
        };
        let normal_ok = match vt.normal {
            Some(n) => n < self.normals.len(),
            None => true,
        };
        let tangent_ok = match vt.tangent {
            Some(t) => t < self.tangents.len(),
            None => true,
        };
        vt.vertex < self.vertices.len() && uv_ok && normal_ok && tangent_ok
    }

    /// The position, texture coordinates, normal and tangent of corner `index`. For a
    /// mesh built by `from_split` or `new`, the last three are looked up by the position
    /// index of the corner.
    pub fn vertex(&self, index: usize) -> (r: (&P, Option<&U>, Option<&N>, Option<&N>))
        requires
            self.corner_ok(index as int),
        ensures
            *r.0 == self.spec_vertices()[self.spec_triangles()[index as int].vertex as int],
            match self.spec_triangles()[index as int].uv {
                Some(u) => r.1 matches Some(x) && *x == self.spec_uvs()[u as int],
                None => r.1 is None,
            },
            match self.spec_triangles()[index as int].normal {
                Some(n) => r.2 matches Some(x) && *x == self.spec_normals()[n as int],
                None => r.2 is None,
            },
            match self.spec_triangles()[index as int].tangent {
                Some(t) => r.3 matches Some(x) && *x == self.spec_tangents()[t as int],
                None => r.3 is None,
            },
    {
        let vertex_tuple = &self.triangles[index];
        let uv = match vertex_tuple.uv {
            Some(uv_idx) => Some(&self.uvs[uv_idx]),
            None => None,
        };
        let normal = match vertex_tuple.normal {
            Some(idx) => Some(&self.normals[idx]),
            None => None,
        };
        let tangent = match vertex_tuple.tangent {
            Some(idx) => Some(&self.tangents[idx]),
            None => None,
        };
        (&self.vertices[vertex_tuple.vertex], uv, normal, tangent)
    }

    /// The corners of every triangle, each with the index of its first corner, as the
    /// intersection structure is built from them.
    pub fn corner_positions(&self) -> (r: Vec<(usize, &P, &P, &P)>)
        requires
            self.wf(),
        ensures
            r@.len() == self.spec_triangles().len() / 3,
            forall|t: int|
                0 <= t < r@.len() ==> {
                    &&& (#[trigger] r@[t]).0 == 3 * t
                    &&& *r@[t].1 == self.spec_vertices()[self.spec_triangles()[3 * t].vertex as int]
                    &&& *r@[t].2 == self.spec_vertices()[self.spec_triangles()[3 * t + 1].vertex as int]
                    &&& *r@[t].3 == self.spec_vertices()[self.spec_triangles()[3 * t + 2].vertex as int]
                },
    {
        let mut r: Vec<(usize, &P, &P, &P)> = Vec::new();
        let count = self.triangles.len() / 3;
        let mut t: usize = 0;
        while t < count
            invariant
                self.wf(),
                count == self.spec_triangles().len() / 3,
                count * 3 == self.spec_triangles().len(),
                self.spec_triangles().len() <= usize::MAX,
                t <= count,
                r@.len() == t,
                forall|k: int|
                    0 <= k < t ==> {
                        &&& (#[trigger] r@[k]).0 == 3 * k
                        &&& *r@[k].1 == self.spec_vertices()[self.spec_triangles()[3 * k].vertex as int]
                        &&& *r@[k].2 == self.spec_vertices()[self.spec_triangles()[3 * k + 1].vertex as int]
                        &&& *r@[k].3 == self.spec_vertices()[self.spec_triangles()[3 * k + 2].vertex as int]
                    },
            decreases count - t,
        {
            let start_index = t * 3;
            let v0 = &self.vertices[self.triangles[start_index].vertex];
            let v1 = &self.vertices[self.triangles[start_index + 1].vertex];
            let v2 = &self.vertices[self.triangles[start_index + 2].vertex];
            r.push((start_index, v0, v1, v2));
            t = t + 1;
        }
        r
    }
}

/// A mesh whose vertices carry all their attributes.
pub fn triangle_mesh<P: Copy, U: Copy, N: Copy>(
    triangles: Vec<usize>,
    vertices: Vec<TriangleVertex<P, U, N>>,
) -> (r: Result<TriangleMesh<P, U, N>, MeshError>)
    ensures
        TriangleMesh::<P, U, N>::from_split_outcome(
            triangles@.map_values(|v: usize| corner_tuple(v)),
            vertices@.map_values(|tv: TriangleVertex<P, U, N>| tv.spec_pos()),
            vertices@.map_values(|tv: TriangleVertex<P, U, N>| tv.spec_uv()),
            vertices@.map_values(|tv: TriangleVertex<P, U, N>| tv.spec_surface_normal()),
            vertices@.map_values(|tv: TriangleVertex<P, U, N>| tv.spec_tangent()),
            r,
        ),
{
    TriangleMesh::new(triangles, vertices)
}

impl<P, U, N> DefaultTransformable for TriangleMesh<P, U, N> {}

impl<P, U, N> DefaultSkinnable for TriangleMesh<P, U, N> {}

} // verus!
