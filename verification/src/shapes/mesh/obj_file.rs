use vstd::prelude::*;

use super::tri_mesh::{TriangleMesh, VertexTuple};
use super::MeshError;

verus! {

/// One corner of a face in a model file: the index of its position, and optionally of
/// its texture coordinates and of its normal.
#[derive(Clone, Copy, Debug, PartialEq, Eq, Structural)]
pub struct IndexTuple(pub usize, pub Option<usize>, pub Option<usize>);

/// A named group of faces from a model file; each face lists its corners in order.
#[derive(Clone, Debug)]
pub struct FaceGroup {
    pub name: String,
    pub polys: Vec<Vec<IndexTuple>>,
}

impl FaceGroup {
    /// The faces, each as the sequence of its corners.
    pub open spec fn faces(&self) -> Seq<Seq<IndexTuple>> {
        self.polys@.map_values(|p: Vec<IndexTuple>| p@)
    }
}

/// The vertex tuple that a checked corner becomes: no tangent is given by the file.
pub open spec fn to_vertex_tuple(t: IndexTuple) -> VertexTuple {
    VertexTuple { vertex: t.0, uv: t.1, normal: t.2, tangent: None }
}

/// Whether checking corner `t` against lists of these lengths ends in a panic: the
/// normal index is out of range while no texture index is given, and the message of
/// that error reads the texture index.
pub open spec fn validate_panics(t: IndexTuple, np: nat, nt: nat, nn: nat) -> bool {
    &&& t.0 < np
    &&& !(t.1 matches Some(i) && i >= nt)
    &&& t.2 matches Some(i) && i >= nn
    &&& t.1 is None
}

/// What checking corner `t` gives: the position index is checked first, then the
/// texture index, then the normal index.
pub open spec fn validate_outcome(t: IndexTuple, np: nat, nt: nat, nn: nat) -> Result<VertexTuple, MeshError> {
    if t.0 >= np {
        Err(MeshError::PositionIndexOutOfRange(t.0))
    } else if t.1 matches Some(i) && i >= nt {
        Err(MeshError::TextureIndexOutOfScope(t.1->0))
    } else if t.2 matches Some(i) && i >= nn {
        Err(MeshError::NormalIndexOutOfScope(t.1->0))
    } else {
        Ok(to_vertex_tuple(t))
    }
}

/// Checking a corner looks at its position index first, then its texture index, then its
/// normal index, and reports the first one out of range; a corner whose indices are all
/// in range becomes the vertex tuple of exactly those indices, with no tangent.
pub proof fn lemma_validate_checks_in_order(t: IndexTuple, np: nat, nt: nat, nn: nat)
    ensures
        t.0 >= np ==> validate_outcome(t, np, nt, nn) == Err::<VertexTuple, MeshError>(
            MeshError::PositionIndexOutOfRange(t.0),
        ),
        t.0 < np && t.1 is Some && t.1->0 >= nt ==> validate_outcome(t, np, nt, nn) == Err::<
            VertexTuple,
            MeshError,
        >(MeshError::TextureIndexOutOfScope(t.1->0)),
        t.0 < np && t.1 is Some && t.1->0 < nt && t.2 is Some && t.2->0 >= nn
            ==> validate_outcome(t, np, nt, nn) == Err::<VertexTuple, MeshError>(
            MeshError::NormalIndexOutOfScope(t.1->0),
        ),
        validate_outcome(t, np, nt, nn) is Ok <==> (t.0 < np && !(t.1 matches Some(i) && i >= nt)
            && !(t.2 matches Some(k) && k >= nn)),
        validate_outcome(t, np, nt, nn) is Ok ==> validate_outcome(t, np, nt, nn) == Ok::<
            VertexTuple,
            MeshError,
        >(VertexTuple { vertex: t.0, uv: t.1, normal: t.2, tangent: None }),
{
}

/// Checks that the corner names entries that the lists hold.
fn validate_tuple<A, T, N>(tuple: IndexTuple, position: &[A], texture: &[T], normal: &[N]) -> (r:
    Result<VertexTuple, MeshError>)
    requires
        !validate_panics(tuple, position@.len(), texture@.len(), normal@.len()),
    ensures
        r == validate_outcome(tuple, position@.len(), texture@.len(), normal@.len()),
{
    if tuple.0 >= position.len() {
        return Err(MeshError::PositionIndexOutOfRange(tuple.0));
    }
    let texture_out = match tuple.1 {
        Some(idx) => idx >= texture.len(),
        None => false,
    };
    if texture_out {
        return Err(MeshError::TextureIndexOutOfScope(tuple.1.unwrap()));
    }
    let normal_out = match tuple.2 {
        Some(idx) => idx >= normal.len(),
        None => false,
    };
    if normal_out {
        return Err(MeshError::NormalIndexOutOfScope(tuple.1.unwrap()));
    }
    Ok(VertexTuple { vertex: tuple.0, uv: tuple.1, normal: tuple.2, tangent: None })
}

/// The corners of the triangles that fan out from the first corner of a face: for a
/// face `c0, c1, ..., cn` they are `c0 c1 c2, c0 c2 c3, ..., c0 c(n-1) cn`. Faces with
/// fewer than three corners give no triangle.
pub open spec fn poly_fan(poly: Seq<IndexTuple>) -> Seq<IndexTuple> {
    if poly.len() >= 3 {
        Seq::new(
            (3 * (poly.len() - 2)) as nat,
            |i: int|
                if i % 3 == 0 {
                    poly[0]
                } else {
                    poly[i / 3 + i % 3]
                },
        )
    } else {
        Seq::empty()
    }
}

/// The fan corners of all faces, face after face.
pub open spec fn fan(polys: Seq<Seq<IndexTuple>>) -> Seq<IndexTuple>
    decreases polys.len(),
{
    if polys.len() == 0 {
        Seq::empty()
    } else {
        fan(polys.drop_last()) + poly_fan(polys.last())
    }
}

/// How a face is cut into triangles: a face of fewer than three corners gives none; a
/// face `c0, c1, ..., cn` gives `n - 1` triangles, triangle `k` having the corners `c0`,
/// `c(k+1)`, `c(k+2)` in that order, so that every triangle starts at the face's first
/// corner. A group of one face is cut into just that face's triangles.
pub proof fn lemma_fan_triangles(poly: Seq<IndexTuple>)
    ensures
        poly.len() < 3 ==> poly_fan(poly).len() == 0,
        poly.len() >= 3 ==> poly_fan(poly).len() == 3 * (poly.len() - 2),
        forall|k: int|
            0 <= k < poly.len() - 2 ==> {
                &&& #[trigger] poly_fan(poly)[3 * k] == poly[0]
                &&& poly_fan(poly)[3 * k + 1] == poly[k + 1]
                &&& poly_fan(poly)[3 * k + 2] == poly[k + 2]
            },
        fan(seq![poly]) == poly_fan(poly),
{
    assert forall|k: int| 0 <= k < poly.len() - 2 implies {
        &&& #[trigger] poly_fan(poly)[3 * k] == poly[0]
        &&& poly_fan(poly)[3 * k + 1] == poly[k + 1]
        &&& poly_fan(poly)[3 * k + 2] == poly[k + 2]
    } by {
        assert((3 * k) % 3 == 0 && (3 * k + 1) % 3 == 1 && (3 * k + 2) % 3 == 2);
        assert((3 * k + 1) / 3 == k && (3 * k + 2) / 3 == k);
    }
    let one = seq![poly];
    assert(one.drop_last() =~= Seq::<Seq<IndexTuple>>::empty());
    assert(one.last() == poly);
    assert(fan(one.drop_last()) =~= Seq::<IndexTuple>::empty());
    assert(fan(one) == fan(one.drop_last()) + poly_fan(one.last()));
    assert(fan(one) =~= poly_fan(poly));
}

/// The faces of two lists, put one after the other, are cut into the triangles of the
/// first list followed by those of the second: with `lemma_fan_triangles`, each face's
/// triangles come in the order of the faces.
pub proof fn lemma_fan_concat(a: Seq<Seq<IndexTuple>>, b: Seq<Seq<IndexTuple>>)
    ensures
        fan(a + b) == fan(a) + fan(b),
    decreases b.len(),
{
    if b.len() == 0 {
        assert(a + b =~= a);
        assert(fan(b) =~= Seq::<IndexTuple>::empty());
        assert(fan(a) + fan(b) =~= fan(a));
    } else {
        lemma_fan_concat(a, b.drop_last());
        assert((a + b).drop_last() =~= a + b.drop_last());
        assert((a + b).last() == b.last());
        assert(fan(a + b) =~= fan(a) + fan(b));
    }
}

/// The number of triangles the faces fan into.
pub open spec fn tri_count(polys: Seq<Seq<IndexTuple>>) -> nat
    decreases polys.len(),
{
    if polys.len() == 0 {
        0
    } else {
        tri_count(polys.drop_last()) + if polys.last().len() >= 3 {
            (polys.last().len() - 2) as nat
        } else {
            0
        }
    }
}

/// The first corner of `ts` whose check does not succeed, if any.
pub open spec fn first_failure(ts: Seq<IndexTuple>, np: nat, nt: nat, nn: nat) -> Option<IndexTuple>
    decreases ts.len(),
{
    if ts.len() == 0 {
        None
    } else {
        match first_failure(ts.drop_last(), np, nt, nn) {
            Some(t) => Some(t),
            None => if validate_outcome(ts.last(), np, nt, nn) is Err || validate_panics(
                ts.last(),
                np,
                nt,
                nn,
            ) {
                Some(ts.last())
            } else {
                None
            },
        }
    }
}

proof fn lemma_fan_len(polys: Seq<Seq<IndexTuple>>)
    ensures
        fan(polys).len() == 3 * tri_count(polys),
    decreases polys.len(),
{
    if polys.len() > 0 {
        lemma_fan_len(polys.drop_last());
    }
}

proof fn lemma_tri_count_prefix(polys: Seq<Seq<IndexTuple>>, m: int)
    requires
        0 <= m <= polys.len(),
    ensures
        tri_count(polys.take(m)) <= tri_count(polys),
    decreases polys.len(),
{
    if m < polys.len() {
        assert(polys.drop_last().take(m) =~= polys.take(m));
        lemma_tri_count_prefix(polys.drop_last(), m);
    } else {
        assert(polys.take(m) =~= polys);
    }
}

/// The fan of the first `m` faces is where the fan of all faces starts.
proof fn lemma_fan_prefix(polys: Seq<Seq<IndexTuple>>, m: int)
    requires
        0 <= m <= polys.len(),
    ensures
        fan(polys.take(m)).len() <= fan(polys).len(),
        fan(polys).take(fan(polys.take(m)).len() as int) == fan(polys.take(m)),
    decreases polys.len(),
{
    if m < polys.len() {
        assert(polys.drop_last().take(m) =~= polys.take(m));
        lemma_fan_prefix(polys.drop_last(), m);
        assert(fan(polys).take(fan(polys.take(m)).len() as int) =~= fan(polys.take(m)));
    } else {
        assert(polys.take(m) =~= polys);
        assert(fan(polys).take(fan(polys).len() as int) =~= fan(polys));
    }
}

/// Once a prefix of `ts` holds a failing corner, that corner is the first failure of `ts`.
proof fn lemma_first_failure_extends(ts: Seq<IndexTuple>, k: int, np: nat, nt: nat, nn: nat)
    requires
        0 <= k <= ts.len(),
        first_failure(ts.take(k), np, nt, nn) is Some,
    ensures
        first_failure(ts, np, nt, nn) == first_failure(ts.take(k), np, nt, nn),
    decreases ts.len() - k,
{
    if k < ts.len() {
        assert(ts.take(k + 1).drop_last() =~= ts.take(k));
        lemma_first_failure_extends(ts, k + 1, np, nt, nn);
    } else {
        assert(ts.take(k) =~= ts);
    }
}


/// Where corner `q` of the fan of face `pi` sits in the fan of all faces, and what the
/// fan holds before it.
proof fn lemma_fan_step(faces: Seq<Seq<IndexTuple>>, pi: int, q: int)
    requires
        0 <= pi < faces.len(),
        0 <= q < poly_fan(faces[pi]).len(),
    ensures
        fan(faces.take(pi)).len() + q < fan(faces).len(),
        fan(faces)[fan(faces.take(pi)).len() + q] == poly_fan(faces[pi])[q],
        fan(faces).take(fan(faces.take(pi)).len() + q) == fan(faces.take(pi)) + poly_fan(
            faces[pi],
        ).take(q),
{
    assert(faces.take(pi + 1).drop_last() =~= faces.take(pi));
    lemma_fan_prefix(faces, pi + 1);
    let base = fan(faces.take(pi));
    let whole = fan(faces.take(pi + 1));
    assert(whole == base + poly_fan(faces[pi]));
    assert(fan(faces).take(whole.len() as int)[base.len() + q] == fan(faces)[base.len() + q]);
    assert(fan(faces).take(base.len() + q) =~= base + poly_fan(faces[pi]).take(q)) by {
        assert forall|k: int| 0 <= k < base.len() + q implies fan(faces).take(base.len() + q)[k]
            == (base + poly_fan(faces[pi]).take(q))[k] by {
            assert(fan(faces).take(whole.len() as int)[k] == fan(faces)[k]);
        }
    }
}

/// Checking corner `t`, the next corner of the fan `full` after `done`: if it passes, the
/// corners so far still have no failure; if it fails or panics, it is the first failure
/// of the fan.
proof fn lemma_corner_step(full: Seq<IndexTuple>, done: Seq<IndexTuple>, t: IndexTuple, np: nat, nt: nat, nn: nat)
    requires
        first_failure(done, np, nt, nn) is None,
        done.len() < full.len(),
        full[done.len() as int] == t,
        full.take(done.len() as int) == done,
    ensures
        validate_outcome(t, np, nt, nn) is Ok && !validate_panics(t, np, nt, nn) ==> first_failure(
            done.push(t),
            np,
            nt,
            nn,
        ) is None,
        validate_outcome(t, np, nt, nn) is Err || validate_panics(t, np, nt, nn) ==> first_failure(
            full,
            np,
            nt,
            nn,
        ) == Some(t),
{
    assert(done.push(t).drop_last() =~= done);
    assert(full.take(done.len() + 1 as int) =~= done.push(t));
    if validate_outcome(t, np, nt, nn) is Err || validate_panics(t, np, nt, nn) {
        assert(first_failure(done.push(t), np, nt, nn) == Some(t));
        lemma_first_failure_extends(full, done.len() + 1 as int, np, nt, nn);
    }
}

/// Appends the checked corner `t`, the next corner of the fan `full` after `done`, or
/// gives the error of its check.
fn push_corner<A, T, N>(
    indices: &mut Vec<VertexTuple>,
    t: IndexTuple,
    position: &[A],
    texture: &[T],
    normal: &[N],
    Ghost(full): Ghost<Seq<IndexTuple>>,
    Ghost(done): Ghost<Seq<IndexTuple>>,
) -> (r: Result<(), MeshError>)
    requires
        old(indices)@ == done.map_values(|c: IndexTuple| to_vertex_tuple(c)),
        first_failure(done, position@.len(), texture@.len(), normal@.len()) is None,
        done.len() < full.len(),
        full[done.len() as int] == t,
        full.take(done.len() as int) == done,
        first_failure(full, position@.len(), texture@.len(), normal@.len()) matches Some(f)
            ==> !validate_panics(f, position@.len(), texture@.len(), normal@.len()),
        forall|k: int|
            0 <= k < old(indices)@.len() ==> (#[trigger] old(indices)@[k]).vertex < position@.len(),
    ensures
        r is Ok ==> {
            &&& final(indices)@ == done.push(t).map_values(|c: IndexTuple| to_vertex_tuple(c))
            &&& first_failure(done.push(t), position@.len(), texture@.len(), normal@.len()) is None
            &&& forall|k: int|
                0 <= k < final(indices)@.len() ==> (#[trigger] final(indices)@[k]).vertex
                    < position@.len()
        },
        r matches Err(e) ==> {
            &&& first_failure(full, position@.len(), texture@.len(), normal@.len()) == Some(t)
            &&& validate_outcome(t, position@.len(), texture@.len(), normal@.len()) == Err::<
                VertexTuple,
                MeshError,
            >(e)
        },
{
    proof {
        lemma_corner_step(full, done, t, position@.len(), texture@.len(), normal@.len());
    }
    match validate_tuple(t, position, texture, normal) {
        Ok(vt) => {
            indices.push(vt);
            proof {
                assert(indices@ =~= done.push(t).map_values(|c: IndexTuple| to_vertex_tuple(c)));
            }
            Ok(())
        },
        Err(e) => Err(e),
    }
}

/// A copy of the entries of `s`.
fn copy_slice<X: Copy>(s: &[X]) -> (v: Vec<X>)
    ensures
        v@ == s@,
{
    let mut v: Vec<X> = Vec::new();
    let mut i: usize = 0;
    while i < s.len()
        invariant
            i <= s@.len(),
            v@ == s@.take(i as int),
        decreases s@.len() - i,
    {
        v.push(s[i]);
        proof {
            assert(v@ =~= s@.take(i + 1));
        }
        i = i + 1;
    }
    proof {
        assert(s@.take(i as int) =~= s@);
    }
    v
}

/// Turns a group of faces into a triangle mesh: each face is split into a fan of
/// triangles around its first corner, and every corner is checked, in that order,
/// against the lists of positions, texture coordinates and normals.
pub fn group_to_mesh<P: Copy, U: Copy, N: Copy>(
    group: &FaceGroup,
    position: &[P],
    texture: &[U],
    normal: &[N],
) -> (r: Result<(String, TriangleMesh<P, U, N>), MeshError>)
    requires
        3 * tri_count(group.faces()) <= usize::MAX,
        first_failure(fan(group.faces()), position@.len(), texture@.len(), normal@.len()) matches Some(
            f,
        ) ==> !validate_panics(f, position@.len(), texture@.len(), normal@.len()),
    ensures
        match first_failure(fan(group.faces()), position@.len(), texture@.len(), normal@.len()) {
            Some(t) => r matches Err(e) && validate_outcome(
                t,
                position@.len(),
                texture@.len(),
                normal@.len(),
            ) == Err::<VertexTuple, MeshError>(e),
            None => r matches Ok((name, m)) && name@ == group.name@ && m.wf() && m.spec_triangles()
                == fan(group.faces()).map_values(|c: IndexTuple| to_vertex_tuple(c))
                && m.spec_vertices() == position@ && m.spec_uvs() == texture@ && m.spec_normals()
                == normal@ && m.spec_tangents() == Seq::<N>::empty(),
        },
{
    let ghost faces = group.faces();
    let ghost full = fan(faces);
    let ghost np = position@.len();
    let ghost nt = texture@.len();
    let ghost nn = normal@.len();

    let mut noof_triangles: usize = 0;
    let mut i: usize = 0;
    while i < group.polys.len()
        invariant
            i <= group.polys@.len(),
            faces == group.faces(),
            faces.len() == group.polys@.len(),
            3 * tri_count(faces) <= usize::MAX,
            noof_triangles == tri_count(faces.take(i as int)),
        decreases group.polys@.len() - i,
    {
        proof {
            lemma_tri_count_prefix(faces, i + 1);
            assert(faces.take(i + 1).drop_last() =~= faces.take(i as int));
            assert(faces[i as int] == group.polys@[i as int]@);
        }
        let n = group.polys[i].len();
        if n >= 3 {
            noof_triangles = noof_triangles + (n - 2);
        }
        i = i + 1;
    }
    proof {
        assert(faces.take(i as int) =~= faces);
    }
    let mut indices: Vec<VertexTuple> = Vec::with_capacity(3 * noof_triangles);

    let ghost mut done: Seq<IndexTuple> = Seq::empty();
    let mut pi: usize = 0;
    while pi < group.polys.len()
        invariant
            pi <= group.polys@.len(),
            faces == group.faces(),
            faces.len() == group.polys@.len(),
            full == fan(faces),
            np == position@.len(),
            nt == texture@.len(),
            nn == normal@.len(),
            first_failure(full, np, nt, nn) matches Some(f) ==> !validate_panics(f, np, nt, nn),
            done == fan(faces.take(pi as int)),
            indices@ == done.map_values(|c: IndexTuple| to_vertex_tuple(c)),
            first_failure(done, np, nt, nn) is None,
            forall|k: int| 0 <= k < indices@.len() ==> (#[trigger] indices@[k]).vertex < np,
        decreases group.polys@.len() - pi,
    {
        let poly = &group.polys[pi];
        let ghost face = faces[pi as int];
        proof {
            assert(poly@ == face);
            assert(faces.take(pi + 1).drop_last() =~= faces.take(pi as int));
        }
        if poly.len() >= 3 {
            let mut idx: usize = 1;
            while idx < poly.len() - 1
                invariant
                    1 <= idx <= poly@.len() - 1,
                    poly@.len() >= 3,
                    poly@ == face,
                    pi < faces.len(),
                    face == faces[pi as int],
                    faces == group.faces(),
                    full == fan(faces),
                    np == position@.len(),
                    nt == texture@.len(),
                    nn == normal@.len(),
                    first_failure(full, np, nt, nn) matches Some(f) ==> !validate_panics(f, np, nt, nn),
                    done == fan(faces.take(pi as int)) + poly_fan(face).take(3 * (idx - 1)),
                    indices@ == done.map_values(|c: IndexTuple| to_vertex_tuple(c)),
                    first_failure(done, np, nt, nn) is None,
                    forall|k: int| 0 <= k < indices@.len() ==> (#[trigger] indices@[k]).vertex < np,
                decreases poly@.len() - idx,
            {
                let ghost q: int = 3 * (idx - 1);
                proof {
                    lemma_fan_step(faces, pi as int, q);
                    assert(poly_fan(face)[q] == face[0]);
                }
                push_corner(&mut indices, poly[0], position, texture, normal, Ghost(full), Ghost(done))?;
                proof {
                    done = done.push(face[0]);
                    assert(done =~= fan(faces.take(pi as int)) + poly_fan(face).take(q + 1));
                    lemma_fan_step(faces, pi as int, q + 1);
                    assert(poly_fan(face)[q + 1] == face[idx as int]);
                }
                push_corner(&mut indices, poly[idx], position, texture, normal, Ghost(full), Ghost(done))?;
                proof {
                    done = done.push(face[idx as int]);
                    assert(done =~= fan(faces.take(pi as int)) + poly_fan(face).take(q + 2));
                    lemma_fan_step(faces, pi as int, q + 2);
                    assert(poly_fan(face)[q + 2] == face[idx + 1]);
                }
                push_corner(&mut indices, poly[idx + 1], position, texture, normal, Ghost(full), Ghost(done))?;
                proof {
                    done = done.push(face[idx + 1]);
                    assert(done =~= fan(faces.take(pi as int)) + poly_fan(face).take(q + 3));
                }
                idx = idx + 1;
            }
            proof {
                assert(poly_fan(face).take(3 * (idx - 1)) =~= poly_fan(face));
            }
        } else {
            proof {
                assert(done =~= fan(faces.take(pi as int)) + poly_fan(face));
            }
        }
        proof {
            assert(fan(faces.take(pi + 1)) == fan(faces.take(pi as int)) + poly_fan(face));
        }
        pi = pi + 1;
    }
    proof {
        assert(faces.take(pi as int) =~= faces);
        lemma_fan_len(faces);
    }
    let mesh = TriangleMesh::from_split_unchecked(
        indices,
        copy_slice(position),
        copy_slice(texture),
        copy_slice(normal),
        Vec::new(),
    );
    Ok((group.name.clone(), mesh))
}

/// An object of a model file: its name and its groups of faces.
#[derive(Clone, Debug)]
pub struct ObjectGroups {
    pub name: String,
    pub groups: Vec<FaceGroup>,
}

/// Whether building a mesh from `group` stops at a faulty corner.
pub open spec fn group_fails(group: FaceGroup, np: nat, nt: nat, nn: nat) -> bool {
    first_failure(fan(group.faces()), np, nt, nn) is Some
}

/// Whether a mesh can be built from `group` without running out of memory or panicking:
/// its corners fit in memory, and its first faulty corner, if any, is reported.
pub open spec fn group_buildable(group: FaceGroup, np: nat, nt: nat, nn: nat) -> bool {
    &&& 3 * tri_count(group.faces()) <= usize::MAX
    &&& first_failure(fan(group.faces()), np, nt, nn) matches Some(f) ==> !validate_panics(
        f,
        np,
        nt,
        nn,
    )
}

/// Whether `named` is the mesh built from a group without faulty corners: it has the
/// group's name, its corners are the fan of the group's faces, and it holds the lists.
pub open spec fn is_group_mesh<P, U, N>(
    group: FaceGroup,
    position: Seq<P>,
    texture: Seq<U>,
    normal: Seq<N>,
    named: (String, TriangleMesh<P, U, N>),
) -> bool {
    &&& named.0@ == group.name@
    &&& named.1.wf()
    &&& named.1.spec_triangles() == fan(group.faces()).map_values(
        |c: IndexTuple| to_vertex_tuple(c),
    )
    &&& named.1.spec_vertices() == position
    &&& named.1.spec_uvs() == texture
    &&& named.1.spec_normals() == normal
    &&& named.1.spec_tangents() == Seq::<N>::empty()
}

/// The index of the first group of `groups` that has a faulty corner, if any.
pub open spec fn first_failing_group(groups: Seq<FaceGroup>, np: nat, nt: nat, nn: nat) -> Option<int>
    decreases groups.len(),
{
    if groups.len() == 0 {
        None
    } else {
        match first_failing_group(groups.drop_last(), np, nt, nn) {
            Some(i) => Some(i),
            None => if group_fails(groups.last(), np, nt, nn) {
                Some(groups.len() - 1)
            } else {
                None
            },
        }
    }
}

proof fn lemma_first_failing_group_extends(groups: Seq<FaceGroup>, k: int, np: nat, nt: nat, nn: nat)
    requires
        0 <= k <= groups.len(),
        first_failing_group(groups.take(k), np, nt, nn) is Some,
    ensures
        first_failing_group(groups, np, nt, nn) == first_failing_group(groups.take(k), np, nt, nn),
    decreases groups.len() - k,
{
    if k < groups.len() {
        assert(groups.take(k + 1).drop_last() =~= groups.take(k));
        lemma_first_failing_group_extends(groups, k + 1, np, nt, nn);
    } else {
        assert(groups.take(k) =~= groups);
    }
}

/// What building a mesh from a group would come to.
#[derive(Clone, Copy, Debug, PartialEq, Eq, Structural)]
pub enum GroupCheck {
    /// Every corner names entries that the lists hold: the mesh is built.
    Builds,
    /// A corner names an entry that a list does not hold: its error is reported.
    Fails,
    /// The group is too large to index, or its first faulty corner has no texture index
    /// to report with its normal index: building it panics.
    Unbuildable,
}

/// Checks corner `t`, the next corner of the fan `full` after `done`: `None` when it is
/// fine, otherwise whether reporting it panics.
fn check_corner(
    t: IndexTuple,
    np: usize,
    nt: usize,
    nn: usize,
    Ghost(full): Ghost<Seq<IndexTuple>>,
    Ghost(done): Ghost<Seq<IndexTuple>>,
) -> (r: Option<bool>)
    requires
        first_failure(done, np as nat, nt as nat, nn as nat) is None,
        done.len() < full.len(),
        full[done.len() as int] == t,
        full.take(done.len() as int) == done,
    ensures
        r is None ==> first_failure(done.push(t), np as nat, nt as nat, nn as nat) is None,
        r matches Some(p) ==> first_failure(full, np as nat, nt as nat, nn as nat) == Some(t) && p
            == validate_panics(t, np as nat, nt as nat, nn as nat),
{
    proof {
        lemma_corner_step(full, done, t, np as nat, nt as nat, nn as nat);
    }
    let bad_position = t.0 >= np;
    let bad_texture = match t.1 {
        Some(i) => i >= nt,
        None => false,
    };
    let bad_normal = match t.2 {
        Some(i) => i >= nn,
        None => false,
    };
    if bad_position || bad_texture || bad_normal {
        Some(!bad_position && !bad_texture && bad_normal && t.1.is_none())
    } else {
        None
    }
}

/// Tells ahead of building whether a mesh can be built from `group` against lists of
/// these lengths, whether a faulty corner is reported, or whether building panics.
pub fn check_group(group: &FaceGroup, np: usize, nt: usize, nn: usize) -> (c: GroupCheck)
    ensures
        c is Unbuildable <==> !group_buildable(*group, np as nat, nt as nat, nn as nat),
        c is Fails <==> group_buildable(*group, np as nat, nt as nat, nn as nat) && group_fails(
            *group,
            np as nat,
            nt as nat,
            nn as nat,
        ),
        c is Builds <==> group_buildable(*group, np as nat, nt as nat, nn as nat) && !group_fails(
            *group,
            np as nat,
            nt as nat,
            nn as nat,
        ),
{
    let ghost faces = group.faces();
    let ghost full = fan(faces);
    let mut count: usize = 0;
    let mut i: usize = 0;
    while i < group.polys.len()
        invariant
            i <= group.polys@.len(),
            faces == group.faces(),
            faces.len() == group.polys@.len(),
            count == tri_count(faces.take(i as int)),
            3 * count <= usize::MAX,
        decreases group.polys@.len() - i,
    {
        proof {
            lemma_tri_count_prefix(faces, i + 1);
            assert(faces.take(i + 1).drop_last() =~= faces.take(i as int));
            assert(faces[i as int] == group.polys@[i as int]@);
        }
        let n = group.polys[i].len();
        if n >= 3 {
            if n - 2 > usize::MAX / 3 || count > usize::MAX / 3 - (n - 2) {
                proof {
                    lemma_tri_count_prefix(faces, i + 1);
                }
                return GroupCheck::Unbuildable;
            }
            count = count + (n - 2);
        }
        i = i + 1;
    }
    proof {
        assert(faces.take(i as int) =~= faces);
    }
    let ghost mut done: Seq<IndexTuple> = Seq::empty();
    let mut pi: usize = 0;
    while pi < group.polys.len()
        invariant
            pi <= group.polys@.len(),
            faces == group.faces(),
            faces.len() == group.polys@.len(),
            full == fan(faces),
            3 * tri_count(faces) <= usize::MAX,
            done == fan(faces.take(pi as int)),
            first_failure(done, np as nat, nt as nat, nn as nat) is None,
        decreases group.polys@.len() - pi,
    {
        let poly = &group.polys[pi];
        let ghost face = faces[pi as int];
        proof {
            assert(poly@ == face);
            assert(faces.take(pi + 1).drop_last() =~= faces.take(pi as int));
        }
        if poly.len() >= 3 {
            let mut idx: usize = 1;
            while idx < poly.len() - 1
                invariant
                    1 <= idx <= poly@.len() - 1,
                    poly@.len() >= 3,
                    poly@ == face,
                    pi < faces.len(),
                    face == faces[pi as int],
                    faces == group.faces(),
                    full == fan(faces),
                    3 * tri_count(faces) <= usize::MAX,
                    done == fan(faces.take(pi as int)) + poly_fan(face).take(3 * (idx - 1)),
                    first_failure(done, np as nat, nt as nat, nn as nat) is None,
                decreases poly@.len() - idx,
            {
                let ghost q: int = 3 * (idx - 1);
                proof {
                    lemma_fan_step(faces, pi as int, q);
                    assert(poly_fan(face)[q] == face[0]);
                }
                if let Some(panics) = check_corner(poly[0], np, nt, nn, Ghost(full), Ghost(done)) {
                    return if panics {
                        GroupCheck::Unbuildable
                    } else {
                        GroupCheck::Fails
                    };
                }
                proof {
                    done = done.push(face[0]);
                    assert(done =~= fan(faces.take(pi as int)) + poly_fan(face).take(q + 1));
                    lemma_fan_step(faces, pi as int, q + 1);
                    assert(poly_fan(face)[q + 1] == face[idx as int]);
                }
                if let Some(panics) = check_corner(poly[idx], np, nt, nn, Ghost(full), Ghost(done)) {
                    return if panics {
                        GroupCheck::Unbuildable
                    } else {
                        GroupCheck::Fails
                    };
                }
                proof {
                    done = done.push(face[idx as int]);
                    assert(done =~= fan(faces.take(pi as int)) + poly_fan(face).take(q + 2));
                    lemma_fan_step(faces, pi as int, q + 2);
                    assert(poly_fan(face)[q + 2] == face[idx + 1]);
                }
                if let Some(panics) = check_corner(poly[idx + 1], np, nt, nn, Ghost(full), Ghost(done)) {
                    return if panics {
                        GroupCheck::Unbuildable
                    } else {
                        GroupCheck::Fails
                    };
                }
                proof {
                    done = done.push(face[idx + 1]);
                    assert(done =~= fan(faces.take(pi as int)) + poly_fan(face).take(q + 3));
                }
                idx = idx + 1;
            }
            proof {
                assert(poly_fan(face).take(3 * (idx - 1)) =~= poly_fan(face));
            }
        } else {
            proof {
                assert(done =~= fan(faces.take(pi as int)) + poly_fan(face));
            }
        }
        proof {
            assert(fan(faces.take(pi + 1)) == fan(faces.take(pi as int)) + poly_fan(face));
        }
        pi = pi + 1;
    }
    proof {
        assert(faces.take(pi as int) =~= faces);
    }
    GroupCheck::Builds
}

/// Turns every group of an object into a mesh, in order, stopping at the first group that
/// has a faulty corner.
pub fn obj_to_mesh<P: Copy, U: Copy, N: Copy>(
    obj: &ObjectGroups,
    position: &[P],
    texture: &[U],
    normal: &[N],
) -> (r: Result<(String, Vec<(String, TriangleMesh<P, U, N>)>), MeshError>)
    requires
        forall|i: int|
            0 <= i < obj.groups@.len() && (forall|j: int|
                0 <= j < i ==> !group_fails(
                    #[trigger] obj.groups@[j],
                    position@.len(),
                    texture@.len(),
                    normal@.len(),
                )) ==> group_buildable(
                #[trigger] obj.groups@[i],
                position@.len(),
                texture@.len(),
                normal@.len(),
            ),
    ensures
        match first_failing_group(obj.groups@, position@.len(), texture@.len(), normal@.len()) {
            Some(g) => r matches Err(e) && validate_outcome(
                first_failure(
                    fan(obj.groups@[g].faces()),
                    position@.len(),
                    texture@.len(),
                    normal@.len(),
                )->0,
                position@.len(),
                texture@.len(),
                normal@.len(),
            ) == Err::<VertexTuple, MeshError>(e),
            None => r matches Ok((name, meshes)) && name@ == obj.name@ && meshes@.len()
                == obj.groups@.len() && forall|i: int|
                0 <= i < meshes@.len() ==> is_group_mesh(
                    obj.groups@[i],
                    position@,
                    texture@,
                    normal@,
                    #[trigger] meshes@[i],
                ),
        },
{
    let ghost groups = obj.groups@;
    let ghost np = position@.len();
    let ghost nt = texture@.len();
    let ghost nn = normal@.len();
    let mut meshes: Vec<(String, TriangleMesh<P, U, N>)> = Vec::new();
    let mut i: usize = 0;
    while i < obj.groups.len()
        invariant
            i <= groups.len(),
            groups == obj.groups@,
            np == position@.len(),
            nt == texture@.len(),
            nn == normal@.len(),
            forall|k: int|
                0 <= k < groups.len() && (forall|j: int|
                    0 <= j < k ==> !group_fails(#[trigger] groups[j], np, nt, nn)) ==> group_buildable(
                    #[trigger] groups[k],
                    np,
                    nt,
                    nn,
                ),
            first_failing_group(groups.take(i as int), np, nt, nn) is None,
            forall|j: int| 0 <= j < i ==> !group_fails(#[trigger] groups[j], np, nt, nn),
            meshes@.len() == i,
            forall|j: int|
                0 <= j < i ==> is_group_mesh(groups[j], position@, texture@, normal@, #[trigger] meshes@[j]),
        decreases groups.len() - i,
    {
        proof {
            assert(groups.take(i + 1).drop_last() =~= groups.take(i as int));
            assert(groups.take(i + 1).last() == groups[i as int]);
        }
        match group_to_mesh(&obj.groups[i], position, texture, normal) {
            Ok(named) => {
                meshes.push(named);
                i = i + 1;
            },
            Err(e) => {
                proof {
                    assert(first_failing_group(groups.take(i + 1), np, nt, nn) == Some(i as int));
                    lemma_first_failing_group_extends(groups, i + 1, np, nt, nn);
                }
                return Err(e);
            },
        }
    }
    proof {
        assert(groups.take(i as int) =~= groups);
    }
    Ok((obj.name.clone(), meshes))
}

} // verus!
