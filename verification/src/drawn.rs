//! What a mesh draws, told corner by corner on the faces that it is made of.

use vstd::prelude::*;

use crate::mesh;
use crate::mesh::{Corner, FaceChunk, MergedMesh, Polygons};
use crate::optimize;
use crate::shell_mesh;

verus! {

/// The number of vertices of the first faces.
pub open spec fn vertices_before<P, N, C>(chunks: Seq<FaceChunk<P, N, C>>, n: int) -> int
    decreases n,
{
    if n <= 0 {
        0
    } else {
        vertices_before(chunks, n - 1) + chunks[n - 1].geometry.positions@.len()
    }
}

/// The number of indices of the first faces.
pub open spec fn indices_before<P, N, C>(chunks: Seq<FaceChunk<P, N, C>>, n: int) -> int
    decreases n,
{
    if n <= 0 {
        0
    } else {
        indices_before(chunks, n - 1) + chunks[n - 1].geometry.indices@.len()
    }
}

/// The vertex of a face stands in the mesh behind those of the faces before,
/// with its own position and normal, the colour of the face and its number.
pub open spec fn keeps_vertex<P, N, C>(
    m: MergedMesh<P, N, C>,
    chunks: Seq<FaceChunk<P, N, C>>,
    base: int,
    f: int,
    v: int,
) -> bool {
    let at = vertices_before(chunks, f) + v;
    &&& 0 <= at < m.positions@.len()
    &&& m.positions@[at] == chunks[f].geometry.positions@[v]
    &&& m.normals@[at] == chunks[f].geometry.normals@[v]
    &&& m.colors@[at] == chunks[f].color
    &&& m.face_index@[at] == base + f
}

/// The index of a face stands in the mesh behind those of the faces before, and
/// names the same vertex there.
pub open spec fn keeps_index<P, N, C>(
    m: MergedMesh<P, N, C>,
    chunks: Seq<FaceChunk<P, N, C>>,
    f: int,
    i: int,
) -> bool {
    let at = indices_before(chunks, f) + i;
    &&& 0 <= at < m.indices@.len()
    &&& m.indices@[at] == vertices_before(chunks, f) + chunks[f].geometry.indices@[i]
}

/// The mesh has the vertices and the indices of the faces, and no others.
pub open spec fn keeps_faces<P, N, C>(
    m: MergedMesh<P, N, C>,
    chunks: Seq<FaceChunk<P, N, C>>,
    base: int,
) -> bool {
    &&& m.positions@.len() == vertices_before(chunks, chunks.len() as int)
    &&& m.indices@.len() == indices_before(chunks, chunks.len() as int)
    &&& forall|f: int, v: int|
        0 <= f < chunks.len() && 0 <= v < chunks[f].geometry.positions@.len()
            ==> #[trigger] keeps_vertex(m, chunks, base, f, v)
    &&& forall|f: int, i: int|
        0 <= f < chunks.len() && 0 <= i < chunks[f].geometry.indices@.len()
            ==> #[trigger] keeps_index(m, chunks, f, i)
}

proof fn lemma_counts_grow<P, N, C>(chunks: Seq<FaceChunk<P, N, C>>, f: int, n: int)
    requires
        0 <= f < n <= chunks.len(),
    ensures
        0 <= vertices_before(chunks, f),
        0 <= indices_before(chunks, f),
        vertices_before(chunks, f) + chunks[f].geometry.positions@.len() <= vertices_before(
            chunks,
            n,
        ),
        indices_before(chunks, f) + chunks[f].geometry.indices@.len() <= indices_before(chunks, n),
    decreases n,
{
    if f < n - 1 {
        lemma_counts_grow(chunks, f, n - 1);
    } else if f > 0 {
        lemma_counts_grow(chunks, f - 1, n - 1);
    }
}

proof fn lemma_counts_of_fewer<P, N, C>(chunks: Seq<FaceChunk<P, N, C>>, n: int)
    requires
        0 <= n < chunks.len(),
    ensures
        vertices_before(chunks.drop_last(), n) == vertices_before(chunks, n),
        indices_before(chunks.drop_last(), n) == indices_before(chunks, n),
    decreases n,
{
    if n > 0 {
        lemma_counts_of_fewer(chunks, n - 1);
    }
}

proof fn lemma_join_keeps<P, N, C>(chunks: Seq<FaceChunk<P, N, C>>, base: int)
    requires
        forall|i: int| 0 <= i < chunks.len() ==> (#[trigger] chunks[i]).geometry.valid(),
        0 <= base,
        base + chunks.len() <= u32::MAX,
        vertices_before(chunks, chunks.len() as int) <= u32::MAX,
    ensures
        ({
            let n = chunks.len() as int;
            &&& mesh::joined_positions(chunks).len() == vertices_before(chunks, n)
            &&& mesh::joined_normals(chunks).len() == vertices_before(chunks, n)
            &&& mesh::joined_colors(chunks).len() == vertices_before(chunks, n)
            &&& mesh::joined_faces(chunks, base).len() == vertices_before(chunks, n)
            &&& mesh::joined_indices(chunks).len() == indices_before(chunks, n)
        }),
        forall|f: int, v: int|
            #![trigger chunks[f].geometry.positions@[v]]
            0 <= f < chunks.len() && 0 <= v < chunks[f].geometry.positions@.len() ==> {
                let at = vertices_before(chunks, f) + v;
                &&& mesh::joined_positions(chunks)[at] == chunks[f].geometry.positions@[v]
                &&& mesh::joined_normals(chunks)[at] == chunks[f].geometry.normals@[v]
                &&& mesh::joined_colors(chunks)[at] == chunks[f].color
                &&& mesh::joined_faces(chunks, base)[at] == base + f
            },
        forall|f: int, i: int|
            #![trigger chunks[f].geometry.indices@[i]]
            0 <= f < chunks.len() && 0 <= i < chunks[f].geometry.indices@.len()
                ==> mesh::joined_indices(chunks)[indices_before(chunks, f) + i] == vertices_before(
                chunks,
                f,
            ) + chunks[f].geometry.indices@[i],
    decreases chunks.len(),
{
    if chunks.len() > 0 {
        let init = chunks.drop_last();
        let last = chunks.len() - 1;
        lemma_counts_of_fewer(chunks, last);
        lemma_counts_grow(chunks, last, last + 1);
        assert forall|i: int| 0 <= i < init.len() implies (#[trigger] init[i]).geometry.valid() by {
            assert(init[i] == chunks[i]);
        }
        assert(chunks[last].geometry.valid());
        lemma_join_keeps(init, base);
        assert forall|f: int, v: int|
            #![trigger chunks[f].geometry.positions@[v]]
            0 <= f < chunks.len() && 0 <= v < chunks[f].geometry.positions@.len() implies {
            let at = vertices_before(chunks, f) + v;
            &&& mesh::joined_positions(chunks)[at] == chunks[f].geometry.positions@[v]
            &&& mesh::joined_normals(chunks)[at] == chunks[f].geometry.normals@[v]
            &&& mesh::joined_colors(chunks)[at] == chunks[f].color
            &&& mesh::joined_faces(chunks, base)[at] == base + f
        } by {
            if f < last {
                lemma_counts_of_fewer(chunks, f);
                lemma_counts_grow(chunks, f, last);
                assert(init[f].geometry.positions@[v] == chunks[f].geometry.positions@[v]);
            }
        }
        assert forall|f: int, i: int|
            #![trigger chunks[f].geometry.indices@[i]]
            0 <= f < chunks.len() && 0 <= i < chunks[f].geometry.indices@.len() implies
            mesh::joined_indices(chunks)[indices_before(chunks, f) + i] == vertices_before(
            chunks,
            f,
        ) + chunks[f].geometry.indices@[i] by {
            if f < last {
                lemma_counts_of_fewer(chunks, f);
                lemma_counts_grow(chunks, f, last);
                assert(init[f].geometry.indices@[i] == chunks[f].geometry.indices@[i]);
            } else {
                assert(chunks[f].geometry.indices@[i] < chunks[f].geometry.positions@.len());
            }
        }
    }
}

proof fn lemma_vertex_total<P, N, C>(chunks: Seq<FaceChunk<P, N, C>>)
    ensures
        mesh::joined_positions(chunks).len() == vertices_before(chunks, chunks.len() as int),
    decreases chunks.len(),
{
    if chunks.len() > 0 {
        lemma_vertex_total(chunks.drop_last());
        lemma_counts_of_fewer(chunks, chunks.len() - 1);
    }
}

/// The faces joined to one mesh keep their vertices and their indices.
pub proof fn law_join_keeps_faces<P, N, C>(
    m: MergedMesh<P, N, C>,
    chunks: Seq<FaceChunk<P, N, C>>,
    base: int,
)
    requires
        mesh::mergeable(chunks, base),
        shell_mesh::is_join(m, chunks, base),
    ensures
        keeps_faces(m, chunks, base),
{
    lemma_vertex_total(chunks);
    lemma_join_keeps(chunks, base);
    assert forall|f: int, v: int|
        0 <= f < chunks.len() && 0 <= v
            < chunks[f].geometry.positions@.len() implies #[trigger] keeps_vertex(
        m,
        chunks,
        base,
        f,
        v,
    ) by {
        lemma_counts_grow(chunks, f, chunks.len() as int);
        let p = chunks[f].geometry.positions@[v];
        assert(mesh::joined_positions(chunks)[vertices_before(chunks, f) + v] == p);
    }
    assert forall|f: int, i: int|
        0 <= f < chunks.len() && 0 <= i
            < chunks[f].geometry.indices@.len() implies #[trigger] keeps_index(
        m,
        chunks,
        f,
        i,
    ) by {
        lemma_counts_grow(chunks, f, chunks.len() as int);
        let k = chunks[f].geometry.indices@[i];
        assert(mesh::joined_indices(chunks)[indices_before(chunks, f) + i] == vertices_before(
            chunks,
            f,
        ) + k);
    }
}

/// At one index the mesh draws the vertex that the face has at one of its own:
/// its position, its normal, the colour of the face and the number of the face.
pub open spec fn draws_corner<P, N, C>(
    m: MergedMesh<P, N, C>,
    at: int,
    chunks: Seq<FaceChunk<P, N, C>>,
    base: int,
    f: int,
    i: int,
) -> bool {
    let w = m.indices@[at] as int;
    let v = chunks[f].geometry.indices@[i] as int;
    &&& 0 <= at < m.indices@.len()
    &&& 0 <= w < m.positions@.len()
    &&& m.positions@[w] == chunks[f].geometry.positions@[v]
    &&& m.normals@[w] == chunks[f].geometry.normals@[v]
    &&& m.colors@[w] == chunks[f].color
    &&& m.face_index@[w] == base + f
}

/// Every corner of the joined mesh is the corner of the face that it comes
/// from.
pub proof fn law_joined_corners_are_those_of_faces<P, N, C>(
    m: MergedMesh<P, N, C>,
    chunks: Seq<FaceChunk<P, N, C>>,
    base: int,
    f: int,
    i: int,
)
    requires
        mesh::mergeable(chunks, base),
        shell_mesh::is_join(m, chunks, base),
        0 <= f < chunks.len(),
        0 <= i < chunks[f].geometry.indices@.len(),
    ensures
        draws_corner(m, indices_before(chunks, f) + i, chunks, base, f, i),
{
    law_join_keeps_faces(m, chunks, base);
    assert(chunks[f].geometry.valid());
    let v = chunks[f].geometry.indices@[i] as int;
    assert(0 <= v < chunks[f].geometry.positions@.len());
    assert(keeps_index(m, chunks, f, i));
    assert(keeps_vertex(m, chunks, base, f, v));
}

/// A triangle of the mesh is the triangle of a face, corner for corner.
pub open spec fn draws_triangle<P, N, C>(
    m: MergedMesh<P, N, C>,
    u: int,
    chunks: Seq<FaceChunk<P, N, C>>,
    base: int,
    f: int,
    t: int,
) -> bool {
    &&& draws_corner(m, 3 * u, chunks, base, f, 3 * t)
    &&& draws_corner(m, 3 * u + 1, chunks, base, f, 3 * t + 1)
    &&& draws_corner(m, 3 * u + 2, chunks, base, f, 3 * t + 2)
}

/// Every triangle of a face is drawn by the mesh of its shell, and there are no
/// more triangles than those of the faces.
pub open spec fn draws_all<P, N, C>(
    m: MergedMesh<P, N, C>,
    chunks: Seq<FaceChunk<P, N, C>>,
    base: int,
) -> bool {
    &&& m.indices@.len() == indices_before(chunks, chunks.len() as int)
    &&& forall|f: int, t: int|
        #![trigger draws_triangle_somewhere(m, chunks, base, f, t)]
        0 <= f < chunks.len() && 0 <= t && 3 * t + 2 < chunks[f].geometry.indices@.len()
            ==> draws_triangle_somewhere(m, chunks, base, f, t)
}

pub open spec fn draws_triangle_somewhere<P, N, C>(
    m: MergedMesh<P, N, C>,
    chunks: Seq<FaceChunk<P, N, C>>,
    base: int,
    f: int,
    t: int,
) -> bool {
    exists|u: int| #[trigger] draws_triangle(m, u, chunks, base, f, t)
}

proof fn lemma_counts_in_threes<P, N, C>(chunks: Seq<FaceChunk<P, N, C>>, n: int)
    requires
        0 <= n <= chunks.len(),
        forall|i: int| 0 <= i < chunks.len() ==> (#[trigger] chunks[i]).geometry.valid(),
    ensures
        indices_before(chunks, n) % 3 == 0,
        indices_before(chunks, n) >= 0,
    decreases n,
{
    if n > 0 {
        lemma_counts_in_threes(chunks, n - 1);
        assert(chunks[n - 1].geometry.valid());
    }
}

/// A mesh that draws the same as the join of the faces draws all of their
/// triangles.
pub proof fn law_reordered_mesh_draws_faces<P, N, C>(
    m: MergedMesh<P, N, C>,
    joined: MergedMesh<P, N, C>,
    chunks: Seq<FaceChunk<P, N, C>>,
    base: int,
)
    requires
        mesh::mergeable(chunks, base),
        shell_mesh::is_join(joined, chunks, base),
        m.valid(),
        optimize::draws_same(&m, &joined),
    ensures
        draws_all(m, chunks, base),
{
    law_join_keeps_faces(joined, chunks, base);
    let n = joined.indices@.len() as int / 3;
    let p = choose|p: Seq<int>| #[trigger]
        optimize::is_permutation(p, n) && optimize::draws_in_order(&m, &joined, p);
    assert forall|f: int, t: int|
        0 <= f < chunks.len() && 0 <= t && 3 * t + 2
            < chunks[f].geometry.indices@.len() implies #[trigger] draws_triangle_somewhere(
        m,
        chunks,
        base,
        f,
        t,
    ) by {
        lemma_counts_in_threes(chunks, f);
        lemma_counts_grow(chunks, f, chunks.len() as int);
        let s = indices_before(chunks, f) / 3 + t;
        assert(indices_before(chunks, f) + 3 * t == 3 * s);
        assert(3 * s + 2 < joined.indices@.len());
        assert(0 <= s < n);
        optimize::lemma_permutation_hits(p, n, s);
        let u = choose|u: int| 0 <= u < n && #[trigger] p[u] == s;
        assert forall|k: int| 0 <= k < 3 implies #[trigger] draws_corner(
            m,
            3 * u + k,
            chunks,
            base,
            f,
            3 * t + k,
        ) by {
            law_joined_corners_are_those_of_faces(joined, chunks, base, f, 3 * t + k);
            assert(m.corner(3 * u + k) == joined.corner(3 * p[u] + k));
        }
        assert(draws_corner(m, 3 * u + 0, chunks, base, f, 3 * t + 0));
        assert(draws_corner(m, 3 * u + 1, chunks, base, f, 3 * t + 1));
        assert(draws_corner(m, 3 * u + 2, chunks, base, f, 3 * t + 2));
        assert(draws_triangle(m, u, chunks, base, f, t));
    }
}

// The triangles that polygons fall into.

/// A polygon falls into a fan of triangles around its first corner: one less
/// two of them than it has corners, each with two neighbouring corners.
pub proof fn law_fan_goes_round(polygon: Seq<Corner>, t: int)
    requires
        0 <= t < polygon.len() - 2,
    ensures
        mesh::fan(polygon).len() == 3 * (polygon.len() - 2),
        mesh::fan(polygon)[3 * t] == polygon[0],
        mesh::fan(polygon)[3 * t + 1] == polygon[t + 1],
        mesh::fan(polygon)[3 * t + 2] == polygon[t + 2],
    decreases polygon.len(),
{
    let init = polygon.drop_last();
    if t < init.len() - 2 {
        law_fan_goes_round(init, t);
    } else if init.len() > 2 {
        law_fan_goes_round(init, 0);
    } else {
        assert(mesh::fan(init) == Seq::<Corner>::empty());
    }
}

proof fn lemma_triangle_places(triangles: Seq<[Corner; 3]>, i: int)
    requires
        0 <= i <= triangles.len(),
    ensures
        mesh::triangle_corners(triangles).len() == 3 * triangles.len(),
        i < triangles.len() ==> forall|k: int|
            0 <= k < 3 ==> #[trigger] mesh::triangle_corners(triangles)[3 * i + k]
                == triangles[i]@[k],
    decreases triangles.len(),
{
    if triangles.len() > 0 {
        let init = triangles.drop_last();
        lemma_triangle_places(init, if i < init.len() { i } else { 0 });
        law_fan_goes_round(triangles.last()@, 0);
        if i < init.len() {
            assert(triangles[i] == init[i]);
        }
    }
}

/// Triangles come first and as they are, corner for corner.
pub proof fn law_triangles_are_kept(polygons: Polygons, i: int, k: int)
    requires
        0 <= i < polygons.triangles@.len(),
        0 <= k < 3,
    ensures
        polygons.corners().len() > 3 * i + k,
        polygons.corners()[3 * i + k] == polygons.triangles@[i]@[k],
{
    lemma_triangle_places(polygons.triangles@, i);
    assert(mesh::triangle_corners(polygons.triangles@)[3 * i + k] == polygons.triangles@[i]@[k]);
}

proof fn lemma_quad_places(quads: Seq<[Corner; 4]>, i: int)
    requires
        0 <= i <= quads.len(),
    ensures
        mesh::quad_corners(quads).len() == 6 * quads.len(),
        i < quads.len() ==> {
            let c = mesh::quad_corners(quads);
            let q = quads[i]@;
            &&& c[6 * i] == q[0] && c[6 * i + 1] == q[1] && c[6 * i + 2] == q[2]
            &&& c[6 * i + 3] == q[0] && c[6 * i + 4] == q[2] && c[6 * i + 5] == q[3]
        },
    decreases quads.len(),
{
    if quads.len() > 0 {
        let init = quads.drop_last();
        lemma_quad_places(init, if i < init.len() { i } else { 0 });
        law_fan_goes_round(quads.last()@, 0);
        law_fan_goes_round(quads.last()@, 1);
        if i < init.len() {
            assert(quads[i] == init[i]);
        }
    }
}

/// Each quad falls into two triangles, behind those that are triangles: its
/// corners 0, 1 and 2, and its corners 0, 2 and 3.
pub proof fn law_quads_are_halved(polygons: Polygons, i: int)
    requires
        0 <= i < polygons.quads@.len(),
    ensures
        ({
            let at = 3 * polygons.triangles@.len() + 6 * i;
            let c = polygons.corners();
            let q = polygons.quads@[i]@;
            &&& c.len() >= at + 6
            &&& c[at] == q[0] && c[at + 1] == q[1] && c[at + 2] == q[2]
            &&& c[at + 3] == q[0] && c[at + 4] == q[2] && c[at + 5] == q[3]
        }),
{
    lemma_triangle_places(polygons.triangles@, 0);
    lemma_quad_places(polygons.quads@, i);
}

/// A corner with a normal takes that one, and one without takes the default.
pub proof fn law_corner_takes_its_normal<N>(normals: Seq<N>, default: N, corner: mesh::Corner)
    ensures
        corner.nor matches Some(n) ==> mesh::corner_normal(normals, default, corner)
            == normals[n as int],
        corner.nor is None ==> mesh::corner_normal(normals, default, corner) == default,
{
}

} // verus!
