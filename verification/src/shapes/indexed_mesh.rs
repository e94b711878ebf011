use vstd::prelude::*;

use super::primitive::UntransformedPrimitive;

use super::mesh::MeshError;

verus! {

/// The position of the first entry of `indices` that is not below `n`, if any.
pub open spec fn first_out_of_range(indices: Seq<usize>, n: nat) -> Option<int> {
    if exists|i: int| 0 <= i < indices.len() && indices[i] >= n {
        Some(choose|i: int| 0 <= i < indices.len() && indices[i] >= n && forall|j: int| 0 <= j < i ==> indices[j] < n)
    } else {
        None
    }
}

/// A mesh of triangles over a shared list of vertices: every three entries of the
/// index list name the corners of one triangle.
#[derive(Debug, Clone)]
pub struct TriangleMesh<V> {
    triangles: Vec<usize>,
    vertices: Vec<V>,
}

/// One triangle of a mesh: three indices into the mesh's vertices.
#[derive(Debug, Clone)]
pub struct Triangle<'a, V> {
    vertex_indices: &'a [usize],
    vertices: &'a [V],
}

impl<V> TriangleMesh<V> {
    pub closed spec fn spec_triangles(&self) -> Seq<usize> {
        self.triangles@
    }

    pub closed spec fn spec_vertices(&self) -> Seq<V> {
        self.vertices@
    }

    /// Every index names a vertex and the indices split into triangles.
    pub open spec fn wf(&self) -> bool {
        &&& self.spec_triangles().len() % 3 == 0
        &&& forall|i: int|
            0 <= i < self.spec_triangles().len() ==> #[trigger] self.spec_triangles()[i]
                < self.spec_vertices().len()
    }

    /// The corners of triangle `t`.
    pub open spec fn corner(&self, t: int, c: int) -> V {
        self.spec_vertices()[self.spec_triangles()[3 * t + c] as int]
    }

    /// What `new` gives for these lists: the first out-of-range index is reported, then
    /// a length that is not a multiple of three; otherwise the mesh holds the lists as given.
    pub open spec fn new_outcome(triangles: Seq<usize>, vertices: Seq<V>, r: Result<Self, MeshError>) -> bool {
        match first_out_of_range(triangles, vertices.len()) {
            Some(i) => r == Err::<Self, MeshError>(MeshError::VertexIndexOutOfRange(triangles[i])),
            None => if triangles.len() % 3 == 0 {
                r matches Ok(m) && m.wf() && m.spec_triangles() == triangles && m.spec_vertices()
                    == vertices
            } else {
                r == Err::<Self, MeshError>(MeshError::NotMultipleOfThree)
            },
        }
    }

    pub fn new(triangles: Vec<usize>, vertices: Vec<V>) -> (r: Result<Self, MeshError>)
        ensures
            Self::new_outcome(triangles@, vertices@, r),
    {
        let mut i: usize = 0;
        while i < triangles.len()
            invariant
                i <= triangles@.len(),
                forall|j: int| 0 <= j < i ==> triangles@[j] < vertices@.len(),
            decreases triangles@.len() - i,
        {
            let idx = triangles[i];
            if idx >= vertices.len() {
                proof {
                    assert(first_out_of_range(triangles@, vertices@.len()) == Some(i as int)) by {
                        let c = choose|k: int|
                            0 <= k < triangles@.len() && triangles@[k] >= vertices@.len() && forall|
                                j: int,
                            | 0 <= j < k ==> triangles@[j] < vertices@.len();
                        assert(0 <= i < triangles@.len() && triangles@[i as int] >= vertices@.len());
                        if c < i {
                        } else if c > i {
                            assert(triangles@[i as int] < vertices@.len());
                        }
                    }
                }
                return Err(MeshError::VertexIndexOutOfRange(idx));
            }
            i = i + 1;
        }
        if triangles.len() % 3 == 0 {
            Ok(Self { triangles, vertices })
        } else {
            Err(MeshError::NotMultipleOfThree)
        }
    }

    /// The number of triangles.
    pub fn len(&self) -> (n: usize)
        ensures
            n == self.spec_triangles().len() / 3,
    {
        self.triangles.len() / 3
    }

    /// The triangles of the mesh, in order.
    pub fn iter(&self) -> (it: TriangleIterator<'_, V>)
        requires
            self.wf(),
        ensures
            it.wf(),
            it.spec_position() == 0,
            it.spec_count() == self.spec_triangles().len() / 3,
            it.spec_triangles() == self.spec_triangles(),
            it.spec_vertices() == self.spec_vertices(),
    {
        TriangleIterator {
            triangles: self.triangles.as_slice(),
            vertices: self.vertices.as_slice(),
            position: 0,
        }
    }
}

impl<'a, V> Triangle<'a, V> {
    pub closed spec fn spec_indices(&self) -> Seq<usize> {
        self.vertex_indices@
    }

    pub closed spec fn spec_vertices(&self) -> Seq<V> {
        self.vertices@
    }

    /// Three corners, each naming a vertex.
    pub open spec fn wf(&self) -> bool {
        &&& self.spec_indices().len() == 3
        &&& forall|i: int| 0 <= i < 3 ==> #[trigger] self.spec_indices()[i] < self.spec_vertices().len()
    }

    /// The three corners of the triangle.
    pub fn vertices(&self) -> (v: Vec<&'a V>)
        requires
            self.wf(),
        ensures
            v@.len() == 3,
            forall|i: int| 0 <= i < 3 ==> *#[trigger] v@[i] == self.spec_vertices()[self.spec_indices()[i] as int],
    {
        let mut v = Vec::new();
        v.push(self.vertex(0));
        v.push(self.vertex(1));
        v.push(self.vertex(2));
        v
    }

    /// Corner number `idx` of the triangle.
    pub fn vertex(&self, idx: usize) -> (v: &'a V)
        requires
            self.wf(),
            idx < 3,
        ensures
            *v == self.spec_vertices()[self.spec_indices()[idx as int] as int],
    {
        &self.vertices[self.vertex_indices[idx]]
    }
}

/// The triangles of a mesh, in order.
#[derive(Debug, Clone)]
pub struct TriangleIterator<'a, V> {
    triangles: &'a [usize],
    vertices: &'a [V],
    position: usize,
}

impl<'a, V> TriangleIterator<'a, V> {
    pub closed spec fn spec_triangles(&self) -> Seq<usize> {
        self.triangles@
    }

    pub closed spec fn spec_vertices(&self) -> Seq<V> {
        self.vertices@
    }

    /// How many triangles have been handed out.
    pub closed spec fn spec_position(&self) -> nat {
        self.position as nat
    }

    /// How many triangles there are in all.
    pub open spec fn spec_count(&self) -> nat {
        self.spec_triangles().len() / 3
    }

    pub open spec fn wf(&self) -> bool {
        &&& self.spec_triangles().len() % 3 == 0
        &&& self.spec_position() <= self.spec_count()
        &&& forall|i: int|
            0 <= i < self.spec_triangles().len() ==> #[trigger] self.spec_triangles()[i]
                < self.spec_vertices().len()
    }

    pub fn next(&mut self) -> (r: Option<Triangle<'a, V>>)
        requires
            old(self).wf(),
        ensures
            final(self).wf(),
            final(self).spec_triangles() == old(self).spec_triangles(),
            final(self).spec_vertices() == old(self).spec_vertices(),
            old(self).spec_position() == old(self).spec_count() ==> r is None
                && final(self).spec_position() == old(self).spec_position(),
            old(self).spec_position() < old(self).spec_count() ==> (r matches Some(t) && t.wf()
                && t.spec_vertices() == old(self).spec_vertices() && t.spec_indices()
                == old(self).spec_triangles().subrange(
                3 * old(self).spec_position() as int,
                3 * old(self).spec_position() + 3 as int,
            ) && final(self).spec_position() == old(self).spec_position() + 1),
    {
        if self.position < self.triangles.len() / 3 {
            let start = 3 * self.position;
            let vertex_indices = &self.triangles[start..start + 3];
            self.position = self.position + 1;
            Some(Triangle { vertex_indices, vertices: self.vertices })
        } else {
            None
        }
    }
}

/// A mesh of triangles over `vertices`.
pub fn triangle_mesh<V>(triangles: Vec<usize>, vertices: Vec<V>) -> (r: Result<TriangleMesh<V>, MeshError>)
    ensures
        TriangleMesh::<V>::new_outcome(triangles@, vertices@, r),
{
    TriangleMesh::new(triangles, vertices)
}

impl<'a, V> UntransformedPrimitive for Triangle<'a, V> {}

impl<V> UntransformedPrimitive for TriangleMesh<V> {}

} // verus!
