use raytracer::shapes::indexed_mesh::{triangle_mesh as indexed_triangle_mesh, TriangleMesh as IndexedMesh};
use raytracer::shapes::mesh::obj_file::{
    check_group, group_to_mesh, obj_to_mesh, FaceGroup, GroupCheck, IndexTuple, ObjectGroups,
};
use raytracer::shapes::mesh::tri_mesh::{triangle_mesh, TriangleMesh, VertexTuple};
use raytracer::shapes::mesh::{MeshError, TriangleVertex};

fn square_corners() -> Vec<(i32, i32, i32)> {
    vec![
        (0, 0, 0),
        (2, 0, 0),
        (0, 2, 0),
        (2, 2, 0),
        (0, 0, 2),
        (2, 0, 2),
        (0, 2, 2),
        (2, 2, 2),
    ]
}

fn cube_vertices() -> Vec<TriangleVertex<(i32, i32, i32), (u8, u8), (i8, i8, i8)>> {
    square_corners()
        .into_iter()
        .map(|p| TriangleVertex::new(p, ((p.0 / 2) as u8, (p.1 / 2) as u8), (0, 0, 1), (0, 1, 0)))
        .collect()
}

#[test]
fn indexed_mesh_validation() {
    // An empty mesh has no triangles
    let empty = IndexedMesh::new(vec![], square_corners()).expect("valid empty mesh");
    assert_eq!(empty.len(), 0);
    // The index list must split into triangles
    assert_eq!(IndexedMesh::new(vec![1], square_corners()).unwrap_err(), MeshError::NotMultipleOfThree);
    // Out of range indices are reported before the length
    assert_eq!(
        IndexedMesh::new(vec![0, 1, 9], square_corners()).unwrap_err(),
        MeshError::VertexIndexOutOfRange(9)
    );
    assert_eq!(
        IndexedMesh::new(vec![9, 1], square_corners()).unwrap_err(),
        MeshError::VertexIndexOutOfRange(9)
    );
    let one = IndexedMesh::new(vec![0, 1, 2], square_corners()).expect("valid single triangle");
    assert_eq!(one.len(), 1);
}

#[test]
fn indexed_mesh_iterates_triangles() {
    let mesh = indexed_triangle_mesh(vec![0, 1, 2, 2, 3, 7], square_corners()).unwrap();
    assert_eq!(mesh.len(), 2);
    let mut it = mesh.iter();
    let first = it.next().expect("first triangle");
    assert_eq!(first.vertices(), vec![&(0, 0, 0), &(2, 0, 0), &(0, 2, 0)]);
    let second = it.next().expect("second triangle");
    assert_eq!(*second.vertex(2), (2, 2, 2));
    assert!(it.next().is_none());
}

#[test]
fn tri_mesh_validation() {
    let empty = TriangleMesh::new(vec![], cube_vertices()).expect("valid empty mesh");
    assert_eq!(empty.len(), 0);
    assert!(TriangleMesh::new(vec![1], cube_vertices()).is_err());
    assert_eq!(
        TriangleMesh::new(vec![0, 1, 9], cube_vertices()).unwrap_err(),
        MeshError::VertexOutOfRange(9)
    );
    let one = triangle_mesh(vec![0, 1, 2], cube_vertices()).expect("valid single triangle");
    assert_eq!(one.len(), 1);
    let corners = one.corner_positions();
    assert_eq!(corners.len(), 1);
    assert_eq!(corners[0], (0, &(0, 0, 0), &(2, 0, 0), &(0, 2, 0)));
}

#[test]
fn tri_mesh_corners_carry_their_attributes() {
    let mesh = TriangleMesh::new(vec![0, 2, 3], cube_vertices()).unwrap();
    let (pos, uv, normal, tangent) = mesh.vertex(2);
    assert_eq!(*pos, (2, 2, 0));
    assert_eq!(uv, Some(&(1, 1)));
    assert_eq!(normal, Some(&(0, 0, 1)));
    assert_eq!(tangent, Some(&(0, 1, 0)));
}

fn tuple(vertex: usize, uv: Option<usize>, normal: Option<usize>, tangent: Option<usize>) -> VertexTuple {
    VertexTuple { vertex, uv, normal, tangent }
}

#[test]
fn from_split_reports_each_error() {
    let positions = vec![1, 2, 3];
    let uvs = vec![10, 20];
    let normals = vec![7];
    let tangents: Vec<i32> = vec![];
    let check = |ts: Vec<VertexTuple>| {
        TriangleMesh::from_split(ts, positions.clone(), uvs.clone(), normals.clone(), tangents.clone())
            .map(|m| m.len())
    };
    assert_eq!(check(vec![tuple(3, None, None, None)]), Err(MeshError::VertexOutOfRange(3)));
    assert_eq!(check(vec![tuple(0, Some(2), None, None)]), Err(MeshError::UvOutOfRange(2)));
    assert_eq!(check(vec![tuple(0, Some(1), Some(1), None)]), Err(MeshError::NormalOutOfRange(1)));
    assert_eq!(check(vec![tuple(0, None, None, Some(0))]), Err(MeshError::TangentOutOfRange(0)));
    assert_eq!(check(vec![tuple(0, None, None, None)]), Err(MeshError::NotMultipleOfThree));
    // The first faulty tuple decides the error
    assert_eq!(
        check(vec![tuple(0, Some(5), None, None), tuple(9, None, None, None)]),
        Err(MeshError::UvOutOfRange(5))
    );
    assert_eq!(
        check(vec![tuple(0, None, None, None), tuple(1, Some(0), Some(0), None), tuple(2, None, None, None)]),
        Ok(1)
    );
}

fn it(p: usize, t: Option<usize>, n: Option<usize>) -> IndexTuple {
    IndexTuple(p, t, n)
}

#[test]
fn group_to_mesh_fans_polygons() {
    let group = FaceGroup {
        name: "quad".to_string(),
        polys: vec![vec![it(0, None, None), it(1, None, None), it(2, None, None), it(3, None, None)]],
    };
    let positions = vec!['a', 'b', 'c', 'd'];
    let texture: Vec<u8> = vec![];
    let normal: Vec<u8> = vec![];
    let (name, mesh) = group_to_mesh(&group, &positions, &texture, &normal).unwrap();
    assert_eq!(name, "quad");
    assert_eq!(mesh.len(), 2);
    let corners = mesh.corner_positions();
    assert_eq!(corners[0], (0, &'a', &'b', &'c'));
    assert_eq!(corners[1], (3, &'a', &'c', &'d'));
}

#[test]
fn group_to_mesh_skips_degenerate_faces() {
    let group = FaceGroup {
        name: "lines".to_string(),
        polys: vec![vec![it(0, None, None), it(1, None, None)], vec![it(0, None, None), it(1, None, None), it(2, None, None)]],
    };
    let positions = vec![1, 2, 3];
    let (_, mesh) = group_to_mesh::<i32, u8, u8>(&group, &positions, &[], &[]).unwrap();
    assert_eq!(mesh.len(), 1);
}

#[test]
fn group_to_mesh_keeps_texture_and_normal_indices() {
    let group = FaceGroup {
        name: "tri".to_string(),
        polys: vec![vec![it(0, Some(1), Some(0)), it(1, Some(0), Some(0)), it(2, Some(1), Some(0))]],
    };
    let positions = vec![0, 1, 2];
    let texture = vec![100, 200];
    let normal = vec![9];
    let (_, mesh) = group_to_mesh(&group, &positions, &texture, &normal).unwrap();
    let (pos, uv, n, tangent) = mesh.vertex(0);
    assert_eq!((*pos, uv, n, tangent), (0, Some(&200), Some(&9), None::<&i32>));
}

#[test]
fn group_to_mesh_reports_bad_indices() {
    let positions = vec![0, 1, 2];
    let texture = vec![0];
    let normal = vec![0];
    let face = |a: IndexTuple| FaceGroup {
        name: "bad".to_string(),
        polys: vec![vec![it(0, None, None), a, it(2, None, None)]],
    };
    assert_eq!(
        group_to_mesh(&face(it(5, None, None)), &positions, &texture, &normal).unwrap_err(),
        MeshError::PositionIndexOutOfRange(5)
    );
    assert_eq!(
        group_to_mesh(&face(it(1, Some(3), None)), &positions, &texture, &normal).unwrap_err(),
        MeshError::TextureIndexOutOfScope(3)
    );
    // The normal error carries the texture index of the corner
    assert_eq!(
        group_to_mesh(&face(it(1, Some(0), Some(4))), &positions, &texture, &normal).unwrap_err(),
        MeshError::NormalIndexOutOfScope(0)
    );
}

#[test]
fn vertex_getters() {
    let v = TriangleVertex::new(1, 2, 3, 4);
    assert_eq!((v.pos(), v.uv(), v.surface_normal(), v.tangent()), (1, 2, 3, 4));
}

#[test]
fn obj_to_mesh_builds_every_group_in_order() {
    let tri = |name: &str, a: usize| FaceGroup {
        name: name.to_string(),
        polys: vec![vec![it(a, None, None), it(a + 1, None, None), it(a + 2, None, None)]],
    };
    let obj = ObjectGroups { name: "thing".to_string(), groups: vec![tri("first", 0), tri("second", 1)] };
    let positions = vec![10, 11, 12, 13];
    let (name, meshes) = obj_to_mesh::<i32, u8, u8>(&obj, &positions, &[], &[]).unwrap();
    assert_eq!(name, "thing");
    assert_eq!(meshes.len(), 2);
    assert_eq!(meshes[0].0, "first");
    assert_eq!(meshes[1].0, "second");
    assert_eq!(meshes[1].1.corner_positions()[0], (0, &11, &12, &13));
}

#[test]
fn obj_to_mesh_stops_at_first_bad_group() {
    let group = |name: &str, p: usize| FaceGroup {
        name: name.to_string(),
        polys: vec![vec![it(0, None, None), it(1, None, None), it(p, None, None)]],
    };
    let obj = ObjectGroups {
        name: "broken".to_string(),
        groups: vec![group("ok", 2), group("bad", 7), group("worse", 9)],
    };
    let positions = vec![0, 1, 2];
    assert_eq!(
        obj_to_mesh::<i32, u8, u8>(&obj, &positions, &[], &[]).unwrap_err(),
        MeshError::PositionIndexOutOfRange(7)
    );
}

#[test]
fn check_group_tells_what_building_gives() {
    let group = |a: IndexTuple| FaceGroup {
        name: "g".to_string(),
        polys: vec![vec![it(0, None, None), it(1, None, None), it(2, None, None), a]],
    };
    assert_eq!(check_group(&group(it(3, Some(0), Some(0))), 4, 1, 1), GroupCheck::Builds);
    assert_eq!(check_group(&group(it(4, None, None)), 4, 1, 1), GroupCheck::Fails);
    assert_eq!(check_group(&group(it(3, Some(1), None)), 4, 1, 1), GroupCheck::Fails);
    // A bad normal index with no texture index cannot be reported
    assert_eq!(check_group(&group(it(3, None, Some(1))), 4, 1, 1), GroupCheck::Unbuildable);
    // A bad normal index with a texture index is reported
    assert_eq!(check_group(&group(it(3, Some(0), Some(1))), 4, 1, 1), GroupCheck::Fails);
    let empty = FaceGroup { name: "e".to_string(), polys: vec![] };
    assert_eq!(check_group(&empty, 0, 0, 0), GroupCheck::Builds);
}

fn point3(x: f64, y: f64, z: f64) -> cgmath::Point3<f64> {
    cgmath::Point3::new(x, y, z)
}

fn cube_points() -> [cgmath::Point3<f64>; 8] {
    [
        point3(0.0, 0.0, 0.0),
        point3(2.0, 0.0, 0.0),
        point3(0.0, 2.0, 0.0),
        point3(2.0, 2.0, 0.0),
        point3(0.0, 0.0, 2.0),
        point3(2.0, 0.0, 2.0),
        point3(0.0, 2.0, 2.0),
        point3(2.0, 2.0, 2.0),
    ]
}

#[test]
fn mesh_test_triangle_mesh() {
    let cube_vertices = cube_points();

    // An empty triangle mesh is fine - it just has no triangles in it
    IndexedMesh::new(vec![], cube_vertices.to_vec()).expect("Valid empty mesh");
    // The triangle index needs to be a multiple of 3
    IndexedMesh::new(vec![1], cube_vertices.to_vec()).expect_err("Invalid mesh");
    // Out of range triangles are out of range
    IndexedMesh::new(vec![0, 1, 9], cube_vertices.to_vec()).expect_err("Invalid mesh");

    // One valid triangle is good
    let one_tri = IndexedMesh::new(vec![0, 1, 2], cube_vertices.to_vec()).expect("Valid single triangle");
    assert_eq!(one_tri.len(), 1);
    let tri = one_tri.iter().next().expect("Missing triangle");
    assert_eq!(tri.vertices(), vec![&cube_vertices[0], &cube_vertices[1], &cube_vertices[2]]);

    // One valid triangle is good
    let one_tri = IndexedMesh::new(vec![0, 2, 3], cube_vertices.to_vec()).expect("Valid single triangle");
    assert_eq!(one_tri.len(), 1);
    let tri = one_tri.iter().next().expect("Missing triangle");
    assert_eq!(tri.vertices(), vec![&cube_vertices[0], &cube_vertices[2], &cube_vertices[3]]);
}

#[test]
fn tri_mesh_test_triangle_mesh() {
    let uvs = [(0.0, 0.0), (1.0, 0.0), (0.0, 1.0), (1.0, 1.0), (0.0, 0.0), (1.0, 0.0), (0.0, 1.0), (1.0, 1.0)];
    let cube_vertices: Vec<_> = cube_points()
        .iter()
        .zip(uvs.iter())
        .map(|(p, uv)| TriangleVertex::new(*p, *uv, (0.0, 0.0, 1.0), (0.0, 1.0, 0.0)))
        .collect();

    // An empty triangle mesh is fine - it just has no triangles in it
    TriangleMesh::new(vec![], cube_vertices.clone()).expect("Valid empty mesh");
    // The triangle index needs to be a multiple of 3
    assert!(TriangleMesh::new(vec![1], cube_vertices.clone()).is_err());
    // Out of range triangles are out of range
    assert!(TriangleMesh::new(vec![0, 1, 9], cube_vertices.clone()).is_err());

    // One valid triangle is good
    let one_tri = TriangleMesh::new(vec![0, 1, 2], cube_vertices.clone()).expect("Valid single triangle");
    let points = cube_points();
    assert_eq!(one_tri.corner_positions(), vec![(0, &points[0], &points[1], &points[2])]);

    // One valid triangle is good
    let one_tri = TriangleMesh::new(vec![0, 2, 3], cube_vertices.clone()).expect("Valid single triangle");
    assert_eq!(one_tri.corner_positions(), vec![(0, &points[0], &points[2], &points[3])]);
    let (pos, uv, normal, tangent) = one_tri.vertex(2);
    assert_eq!(*pos, points[3]);
    assert_eq!(uv, Some(&(1.0, 1.0)));
    assert_eq!(normal, Some(&(0.0, 0.0, 1.0)));
    assert_eq!(tangent, Some(&(0.0, 1.0, 0.0)));
    assert!(one_tri.has_corner(2));
    assert!(!one_tri.has_corner(3));
}
