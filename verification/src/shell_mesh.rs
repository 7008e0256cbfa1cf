//! The mesh that stands for a whole shell.

use vstd::prelude::*;

use crate::drawn;
use crate::lines;
use crate::lines::polygon_edge_lines;
use crate::mesh;
use crate::mesh::{merge_faces, triangle_counts, FaceChunk, MergedMesh};
use crate::optimize;
use crate::optimize::optimize_merged_mesh;
use crate::order;

verus! {

/// What is shown of a shell.
pub struct ShellBuildResult<P, N, C> {
    /// The triangles of all faces.
    pub mesh: MergedMesh<P, N, C>,
    /// The edges of the triangles as a list of lines.
    pub edge_lines: Vec<u32>,
    /// The number of triangles of each face.
    pub triangles: Vec<usize>,
}

/// The mesh holds the faces one behind the other.
pub open spec fn is_join<P, N, C>(
    m: MergedMesh<P, N, C>,
    chunks: Seq<FaceChunk<P, N, C>>,
    base: int,
) -> bool {
    &&& m.valid()
    &&& m.positions@ == mesh::joined_positions(chunks)
    &&& m.normals@ == mesh::joined_normals(chunks)
    &&& m.colors@ == mesh::joined_colors(chunks)
    &&& m.face_index@ == mesh::joined_faces(chunks, base)
    &&& m.indices@ == mesh::joined_indices(chunks)
}

/// The number of triangles in all faces.
pub open spec fn triangle_total<P, N, C>(chunks: Seq<FaceChunk<P, N, C>>) -> int
    decreases chunks.len(),
{
    if chunks.len() == 0 {
        0
    } else {
        triangle_total(chunks.drop_last()) + chunks.last().geometry.indices@.len() / 3
    }
}

proof fn lemma_joined_faces_in_range<P, N, C>(chunks: Seq<FaceChunk<P, N, C>>, base: int)
    requires
        base >= 0,
        base + chunks.len() <= u32::MAX + 1,
    ensures
        forall|v: int|
            0 <= v < mesh::joined_faces(chunks, base).len() ==> base <= (
            #[trigger] mesh::joined_faces(chunks, base)[v]) < base + chunks.len(),
    decreases chunks.len(),
{
    if chunks.len() > 0 {
        lemma_joined_faces_in_range(chunks.drop_last(), base);
        let before = mesh::joined_faces(chunks.drop_last(), base);
        let all = mesh::joined_faces(chunks, base);
        assert forall|v: int| 0 <= v < all.len() implies base <= (#[trigger] all[v]) < base
            + chunks.len() by {
            if v < before.len() {
                assert(all[v] == before[v]);
            }
        }
    }
}

proof fn lemma_triangle_total<P, N, C>(chunks: Seq<FaceChunk<P, N, C>>)
    requires
        forall|i: int| 0 <= i < chunks.len() ==> (#[trigger] chunks[i]).geometry.valid(),
    ensures
        mesh::joined_indices(chunks).len() == 3 * triangle_total(chunks),
    decreases chunks.len(),
{
    if chunks.len() > 0 {
        lemma_triangle_total(chunks.drop_last());
        assert(chunks.last().geometry.valid());
    }
}

/// Each vertex of a mesh has the number of a face of any mesh that draws the
/// same.
proof fn lemma_face_numbers_stay<P, N, C>(a: &MergedMesh<P, N, C>, b: &MergedMesh<P, N, C>)
    requires
        a.valid(),
        b.valid(),
        optimize::draws_same(a, b),
    ensures
        forall|v: int|
            0 <= v < a.face_index@.len() ==> b.face_index@.contains(#[trigger] a.face_index@[v]),
{
    let p = choose|p: Seq<int>| #[trigger]
        optimize::is_permutation(p, b.indices@.len() as int / 3) && optimize::draws_in_order(
            a,
            b,
            p,
        );
    assert forall|v: int| 0 <= v < a.face_index@.len() implies b.face_index@.contains(
        #[trigger] a.face_index@[v],
    ) by {
        assert(mesh::is_used(a.indices@, v));
        let i = choose|i: int| 0 <= i < a.indices@.len() && #[trigger] a.indices@[i] == v;
        let t = i / 3;
        let k = i % 3;
        assert(i == 3 * t + k);
        assert(a.corner(3 * t + k) == b.corner(3 * p[t] + k));
        let w = b.indices@[3 * p[t] + k] as int;
        assert(b.face_index@[w] == a.face_index@[v]);
    }
}

/// One mesh for all faces of a shell, reordered for drawing, with its edges
/// and the number of triangles of each face. Each vertex carries the number of
/// its face; the faces are numbered from `base_face_id`.
pub fn build_shell_merged_mesh<P: Copy + Default, N: Copy + Default, C: Copy + Default>(
    chunks: &[FaceChunk<P, N, C>],
    base_face_id: usize,
) -> (r: ShellBuildResult<P, N, C>)
    requires
        mesh::mergeable(chunks@, base_face_id as int),
        mesh::joined_indices(chunks@).len() <= u32::MAX,
        optimize::reorderable::<P>(),
        optimize::reorderable::<N>(),
        optimize::reorderable::<C>(),
    ensures
        r.mesh.valid(),
        exists|joined: MergedMesh<P, N, C>| #[trigger]
            is_join(joined, chunks@, base_face_id as int) && optimize::draws_same(&r.mesh, &joined)
                && optimize::is_reordered(r.mesh, joined),
        drawn::draws_all(r.mesh, chunks@, base_face_id as int),
        r.mesh.indices@.len() == 3 * triangle_total(chunks@),
        forall|v: int|
            0 <= v < r.mesh.face_index@.len() ==> base_face_id <= (
            #[trigger] r.mesh.face_index@[v]) < base_face_id + chunks@.len(),
        r.edge_lines@ == lines::edge_ends(
            order::distinct(lines::triangle_edges(r.mesh.indices@)),
        ),
        r.triangles@.len() == chunks@.len(),
        forall|i: int|
            0 <= i < chunks@.len() ==> #[trigger] r.triangles@[i]
                == chunks@[i].geometry.indices@.len() / 3,
{
    let joined = merge_faces(chunks, base_face_id);
    let ghost plain = joined;
    let mesh = optimize_merged_mesh(joined);
    proof {
        assert(is_join(plain, chunks@, base_face_id as int));
        lemma_joined_faces_in_range(chunks@, base_face_id as int);
        assert forall|i: int| 0 <= i < chunks@.len() implies (
        #[trigger] chunks@[i]).geometry.valid() by {
        }
        lemma_triangle_total(chunks@);
        lemma_face_numbers_stay(&mesh, &plain);
        drawn::law_reordered_mesh_draws_faces(mesh, plain, chunks@, base_face_id as int);
        assert forall|v: int| 0 <= v < mesh.face_index@.len() implies base_face_id <= (
        #[trigger] mesh.face_index@[v]) < base_face_id + chunks@.len() by {
            let w = choose|w: int|
                0 <= w < plain.face_index@.len() && plain.face_index@[w] == mesh.face_index@[v];
            assert(mesh::joined_faces(chunks@, base_face_id as int)[w] == plain.face_index@[w]);
        }
    }
    let edge_lines = polygon_edge_lines(mesh.indices.as_slice());
    let triangles = triangle_counts(chunks);
    ShellBuildResult { mesh, edge_lines, triangles }
}

} // verus!
