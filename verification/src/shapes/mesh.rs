pub mod obj_file;
pub mod tri_mesh;
pub mod triangle;
pub mod vertex;


pub use tri_mesh::{TriangleMesh, VertexTuple};
pub use vertex::TriangleVertex;

use vstd::prelude::*;

verus! {

/// Why a mesh could not be built from the indices given.
#[derive(Debug, Clone, Copy, PartialEq, Eq, Structural)]
pub enum MeshError {
    /// A triangle names a vertex past the end of the vertex list.
    VertexIndexOutOfRange(usize),
    /// A vertex tuple names a position past the end of the position list.
    VertexOutOfRange(usize),
    /// A vertex tuple names texture coordinates past the end of their list.
    UvOutOfRange(usize),
    /// A vertex tuple names a normal past the end of the normal list.
    NormalOutOfRange(usize),
    /// A vertex tuple names a tangent past the end of the tangent list.
    TangentOutOfRange(usize),
    /// The triangle index list does not split into triangles.
    NotMultipleOfThree,
    /// A face of a model file names a position that the file does not hold.
    PositionIndexOutOfRange(usize),
    /// A face of a model file names texture coordinates that the file does not hold.
    TextureIndexOutOfScope(usize),
    /// A face of a model file names a normal that the file does not hold; the number
    /// carried is the texture index of that corner.
    NormalIndexOutOfScope(usize),
}

} // verus!
