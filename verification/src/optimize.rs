//! Reordering of meshes for the caches of a graphics processor.
//!
//! The orders come from the meshopt library. A reordered mesh draws the same
//! triangles with the same vertex data.

use vstd::prelude::*;

use crate::mesh;
use crate::mesh::MergedMesh;
use crate::order;

verus! {

/// What `meshopt::optimize_vertex_cache_in_place` leaves of an index buffer
/// over the given number of vertices.
pub uninterp spec fn vertex_cache_order(indices: Seq<u32>, vertex_count: nat) -> Seq<u32>;

pub open spec fn is_permutation(p: Seq<int>, n: int) -> bool {
    &&& p.len() == n
    &&& p.no_duplicates()
    &&& forall|i: int| 0 <= i < n ==> 0 <= #[trigger] p[i] < n
}

/// Whether the triangles of `a` are those of `b`, taken in the order `p`.
pub open spec fn takes_triangles(a: Seq<u32>, b: Seq<u32>, p: Seq<int>) -> bool {
    forall|t: int, k: int|
        #![trigger a[3 * t + k]]
        0 <= t < p.len() && 0 <= k < 3 ==> a[3 * t + k] == b[3 * p[t] + k]
}

/// Whether the triangles of `a` are those of `b` in some order.
pub open spec fn rearranged(a: Seq<u32>, b: Seq<u32>) -> bool {
    &&& a.len() == b.len()
    &&& exists|p: Seq<int>| #[trigger]
        is_permutation(p, b.len() as int / 3) && takes_triangles(a, b, p)
}

pub open spec fn indices_below(indices: Seq<u32>, n: int) -> bool {
    forall|i: int| 0 <= i < indices.len() ==> (#[trigger] indices[i]) < n
}

/// A new number for each vertex: no two vertices get the same.
pub open spec fn is_remap(remap: Seq<u32>) -> bool {
    &&& remap.no_duplicates()
    &&& forall|i: int| 0 <= i < remap.len() ==> (#[trigger] remap[i]) < remap.len()
}

/// `meshopt::optimize_vertex_cache_in_place`: puts whole triangles in another
/// order. Each triangle of the input stands in the output once, with its
/// three indices in their order. Which order it is, the name tells.
#[verifier::external_body]
fn optimize_vertex_cache(indices: &mut Vec<u32>, vertex_count: usize)
    requires
        old(indices)@.len() % 3 == 0,
        old(indices)@.len() <= u32::MAX,
        indices_below(old(indices)@, vertex_count as int),
    ensures
        final(indices)@ == vertex_cache_order(old(indices)@, vertex_count as nat),
        rearranged(final(indices)@, old(indices)@),
{
    meshopt::optimize_vertex_cache_in_place(indices, vertex_count);
}

/// `meshopt::optimize_vertex_fetch_remap`: numbers the vertices in the order
/// in which they first stand among the indices. Stated for indices that use
/// every vertex, for which the table has an entry for each.
#[verifier::external_body]
fn optimize_vertex_fetch_remap(indices: &Vec<u32>, vertex_count: usize) -> (r: Vec<u32>)
    requires
        indices_below(indices@, vertex_count as int),
        mesh::all_used(indices@, vertex_count as int),
        vertex_count <= u32::MAX,
    ensures
        r@.len() == vertex_count,
        forall|k: int|
            0 <= k < order::distinct(indices@).len() ==> r@[(#[trigger] order::distinct(
                indices@,
            )[k]) as int] == k,
{
    meshopt::optimize_vertex_fetch_remap(indices, vertex_count)
}

/// `meshopt::remap_vertex_buffer`: copies each vertex to its new number. The
/// size limit is that of the copy routine behind it.
#[verifier::external_body]
fn remap_vertex_buffer<T: Copy + Default>(vertices: &Vec<T>, remap: &Vec<u32>) -> (r: Vec<T>)
    requires
        vertices@.len() == remap@.len(),
        remap@.len() <= u32::MAX,
        is_remap(remap@),
        0 < vstd::layout::size_of::<T>() <= 256,
    ensures
        r@.len() == vertices@.len(),
        forall|i: int| 0 <= i < vertices@.len() ==> r@[remap@[i] as int] == #[trigger] vertices@[i],
{
    meshopt::remap_vertex_buffer(vertices, vertices.len(), remap)
}

/// `meshopt::remap_index_buffer`: replaces each index by its new number.
#[verifier::external_body]
fn remap_index_buffer(indices: &Vec<u32>, remap: &Vec<u32>) -> (r: Vec<u32>)
    requires
        indices_below(indices@, remap@.len() as int),
        remap@.len() <= u32::MAX,
        is_remap(remap@),
    ensures
        r@.len() == indices@.len(),
        forall|i: int| 0 <= i < indices@.len() ==> #[trigger] r@[i] == remap@[indices@[i] as int],
{
    meshopt::remap_index_buffer(Some(indices), remap.len(), remap)
}

/// The new vertex with number `k` is the one used as the `k`-th among the
/// reordered indices.
pub open spec fn gathered<T>(r: Seq<T>, vertices: Seq<T>, cache: Seq<u32>) -> bool {
    &&& r.len() == vertices.len()
    &&& forall|k: int|
        0 <= k < order::distinct(cache).len() ==> #[trigger] r[k] == vertices[order::distinct(
            cache,
        )[k] as int]
}

proof fn lemma_all_distinct(cache: Seq<u32>, n: int)
    requires
        indices_below(cache, n),
        mesh::all_used(cache, n),
        0 <= n <= u32::MAX,
    ensures
        order::distinct(cache).len() == n,
        forall|k: int| 0 <= k < n ==> (#[trigger] order::distinct(cache)[k]) < n,
        forall|v: u32| v < n ==> #[trigger] order::distinct(cache).contains(v),
{
    let d = order::distinct(cache);
    order::lemma_distinct(cache);
    assert forall|k: int| 0 <= k < d.len() implies (#[trigger] d[k]) < n by {
        assert(d.contains(d[k]));
        let i = cache.index_of(d[k]);
        assert(cache[i] == d[k]);
    }
    assert forall|v: u32| v < n implies #[trigger] d.contains(v) by {
        assert(mesh::is_used(cache, v as int));
        let i = choose|i: int| 0 <= i < cache.len() && #[trigger] cache[i] == v as int;
        assert(cache.contains(cache[i]));
    }
    lemma_count_below(d, n);
}

/// Numbers below `n` without repetition, and all of them: there are `n`.
proof fn lemma_count_below(d: Seq<u32>, n: int)
    requires
        0 <= n <= u32::MAX,
        d.no_duplicates(),
        forall|k: int| 0 <= k < d.len() ==> (#[trigger] d[k]) < n,
        forall|v: u32| v < n ==> #[trigger] d.contains(v),
    ensures
        d.len() == n,
    decreases n,
{
    if n == 0 {
        if d.len() > 0 {
            assert(d[0] < n);
        }
    } else {
        let v = (n - 1) as u32;
        assert(d.contains(v));
        let at = d.index_of(v);
        let rest = d.remove(at);
        assert forall|k: int| 0 <= k < rest.len() implies (#[trigger] rest[k]) < n - 1 by {
            if k < at {
                assert(rest[k] == d[k]);
                assert(d[k] != d[at]);
            } else {
                assert(rest[k] == d[k + 1]);
                assert(d[k + 1] != d[at]);
            }
        }
        assert(rest.no_duplicates()) by {
            assert forall|i: int, j: int|
                0 <= i < rest.len() && 0 <= j < rest.len() && i != j implies rest[i] != rest[j] by {
                let a = if i < at {
                    i
                } else {
                    i + 1
                };
                let b = if j < at {
                    j
                } else {
                    j + 1
                };
                assert(rest[i] == d[a] && rest[j] == d[b] && a != b);
            }
        }
        assert forall|w: u32| w < n - 1 implies #[trigger] rest.contains(w) by {
            assert(d.contains(w));
            let k = d.index_of(w);
            if k < at {
                assert(rest[k] == w);
            } else {
                assert(k != at);
                assert(rest[k - 1] == w);
            }
        }
        lemma_count_below(rest, n - 1);
    }
}

proof fn lemma_rearranged_keeps(a: Seq<u32>, b: Seq<u32>, n: int)
    requires
        rearranged(a, b),
        b.len() % 3 == 0,
        indices_below(b, n),
        mesh::all_used(b, n),
    ensures
        indices_below(a, n),
        mesh::all_used(a, n),
{
    let count = b.len() as int / 3;
    let p = choose|p: Seq<int>| #[trigger] is_permutation(p, count) && takes_triangles(a, b, p);
    assert forall|i: int| 0 <= i < a.len() implies (#[trigger] a[i]) < n by {
        let t = i / 3;
        let k = i % 3;
        assert(a[3 * t + k] == b[3 * p[t] + k]);
        assert(0 <= p[t] < count);
    }
    assert forall|v: int| 0 <= v < n implies #[trigger] mesh::is_used(a, v) by {
        assert(mesh::is_used(b, v));
        let i = choose|i: int| 0 <= i < b.len() && #[trigger] b[i] == v;
        let u = i / 3;
        lemma_permutation_hits(p, count, u);
        let t = choose|t: int| 0 <= t < count && #[trigger] p[t] == u;
        assert(a[3 * t + i % 3] == b[3 * p[t] + i % 3]);
    }
}

/// A permutation takes every value.
pub proof fn lemma_permutation_hits(p: Seq<int>, n: int, u: int)
    requires
        is_permutation(p, n),
        0 <= u < n,
    ensures
        exists|t: int| 0 <= t < n && #[trigger] p[t] == u,
    decreases n,
{
    if forall|t: int| 0 <= t < n ==> #[trigger] p[t] != u {
        let q = Seq::new(
            n as nat,
            |t: int|
                if p[t] > u {
                    p[t] - 1
                } else {
                    p[t]
                },
        );
        assert(q.no_duplicates()) by {
            assert forall|i: int, j: int|
                0 <= i < q.len() && 0 <= j < q.len() && i != j implies q[i] != q[j] by {
                assert(p[i] != p[j]);
                assert(p[i] != u && p[j] != u);
            }
        }
        lemma_at_most(q, n - 1);
    }
}

/// No more than `n` different numbers lie between 0 and `n`.
proof fn lemma_at_most(q: Seq<int>, n: int)
    requires
        n >= 0,
        q.no_duplicates(),
        forall|i: int| 0 <= i < q.len() ==> 0 <= #[trigger] q[i] < n,
    ensures
        q.len() <= n,
    decreases n,
{
    if n == 0 {
        if q.len() > 0 {
            assert(0 <= q[0] < n);
        }
    } else if q.contains(n - 1) {
        let at = q.index_of(n - 1);
        let rest = q.remove(at);
        assert forall|k: int| 0 <= k < rest.len() implies 0 <= #[trigger] rest[k] < n - 1 by {
            let from = if k < at {
                k
            } else {
                k + 1
            };
            assert(rest[k] == q[from]);
            assert(q[from] != q[at]);
        }
        assert(rest.no_duplicates()) by {
            assert forall|i: int, j: int|
                0 <= i < rest.len() && 0 <= j < rest.len() && i != j implies rest[i] != rest[j] by {
                let a = if i < at {
                    i
                } else {
                    i + 1
                };
                let b = if j < at {
                    j
                } else {
                    j + 1
                };
                assert(rest[i] == q[a] && rest[j] == q[b] && a != b);
            }
        }
        lemma_at_most(rest, n - 1);
    } else {
        assert forall|i: int| 0 <= i < q.len() implies 0 <= #[trigger] q[i] < n - 1 by {
            assert(q.contains(q[i]));
        }
        lemma_at_most(q, n - 1);
    }
}

/// The reordered indices, the new number of each vertex, and the indices in
/// the new numbers.
struct VertexOrder {
    cache: Ghost<Seq<u32>>,
    remap: Vec<u32>,
    indices: Vec<u32>,
}

impl VertexOrder {
    spec fn of(&self, indices: Seq<u32>, n: int) -> bool {
        let cache = self.cache@;
        &&& cache == vertex_cache_order(indices, n as nat)
        &&& rearranged(cache, indices)
        &&& indices_below(cache, n)
        &&& mesh::all_used(cache, n)
        &&& self.remap@.len() == n
        &&& is_remap(self.remap@)
        &&& order::distinct(cache).len() == n
        &&& forall|k: int|
            0 <= k < n ==> self.remap@[(#[trigger] order::distinct(cache)[k]) as int] == k
        &&& self.indices@.len() == indices.len()
        &&& forall|i: int|
            0 <= i < indices.len() ==> #[trigger] self.indices@[i] == self.remap@[cache[i] as int]
    }
}

fn vertex_order(indices: Vec<u32>, vertex_count: usize) -> (r: VertexOrder)
    requires
        indices@.len() % 3 == 0,
        indices@.len() <= u32::MAX,
        vertex_count <= u32::MAX,
        indices_below(indices@, vertex_count as int),
        mesh::all_used(indices@, vertex_count as int),
    ensures
        r.of(indices@, vertex_count as int),
{
    let ghost before = indices@;
    let ghost n = vertex_count as int;
    let mut cache = indices;
    optimize_vertex_cache(&mut cache, vertex_count);
    proof {
        lemma_rearranged_keeps(cache@, before, n);
        lemma_all_distinct(cache@, n);
        order::lemma_distinct(cache@);
    }
    let remap = optimize_vertex_fetch_remap(&cache, vertex_count);
    proof {
        let d = order::distinct(cache@);
        assert forall|v: int| 0 <= v < n implies (#[trigger] remap@[v]) < n && d[remap@[v] as int]
            == v by {
            assert(d.contains(v as u32));
            let k = d.index_of(v as u32);
            assert(remap@[d[k] as int] == k);
        }
        assert forall|i: int, j: int| 0 <= i < n && 0 <= j < n && i != j implies remap@[i]
            != remap@[j] by {
            assert(d[remap@[i] as int] == i);
            assert(d[remap@[j] as int] == j);
        }
    }
    let renumbered = remap_index_buffer(&cache, &remap);
    VertexOrder { cache: Ghost(cache@), remap, indices: renumbered }
}

proof fn lemma_gathered<T>(r: Seq<T>, vertices: Seq<T>, o: VertexOrder, indices: Seq<u32>)
    requires
        o.of(indices, vertices.len() as int),
        vertices.len() <= u32::MAX,
        r.len() == vertices.len(),
        forall|i: int|
            0 <= i < vertices.len() ==> r[o.remap@[i] as int] == #[trigger] vertices[i],
    ensures
        gathered(r, vertices, o.cache@),
        forall|i: int|
            0 <= i < indices.len() ==> r[(#[trigger] o.indices@[i]) as int] == vertices[
                o.cache@[i] as int
            ],
{
    let d = order::distinct(o.cache@);
    let n = vertices.len() as int;
    lemma_all_distinct(o.cache@, n);
    assert forall|k: int| 0 <= k < d.len() implies #[trigger] r[k] == vertices[d[k] as int] by {
        assert(o.remap@[d[k] as int] == k);
        assert(d[k] < n);
        assert(r[o.remap@[d[k] as int] as int] == vertices[d[k] as int]);
    }
    assert forall|i: int| 0 <= i < indices.len() implies r[(#[trigger] o.indices@[i]) as int]
        == vertices[o.cache@[i] as int] by {
        let v = o.cache@[i] as int;
        assert(o.indices@[i] == o.remap@[v]);
        assert(r[o.remap@[v] as int] == vertices[v]);
    }
}

/// Whether two meshes draw the same triangles, each corner with the same
/// vertex data, in some order of the triangles.
pub open spec fn draws_same<P, N, C>(a: &MergedMesh<P, N, C>, b: &MergedMesh<P, N, C>) -> bool {
    &&& a.indices@.len() == b.indices@.len()
    &&& exists|p: Seq<int>| #[trigger]
        is_permutation(p, b.indices@.len() as int / 3) && draws_in_order(a, b, p)
}

pub open spec fn draws_in_order<P, N, C>(
    a: &MergedMesh<P, N, C>,
    b: &MergedMesh<P, N, C>,
    p: Seq<int>,
) -> bool {
    forall|t: int, k: int|
        #![trigger a.corner(3 * t + k)]
        0 <= t < p.len() && 0 <= k < 3 ==> a.corner(3 * t + k) == b.corner(3 * p[t] + k)
}

/// Vertex data of a size that can be reordered.
pub open spec fn reorderable<T>() -> bool {
    0 < vstd::layout::size_of::<T>() <= 256
}

/// The mesh is the other one in the order for the vertex cache, with its
/// vertices numbered in the order in which they are then used. Without vertices
/// it is the same.
pub open spec fn is_reordered<P, N, C>(r: MergedMesh<P, N, C>, mesh: MergedMesh<P, N, C>) -> bool {
    let cache = vertex_cache_order(mesh.indices@, mesh.positions@.len());
    if mesh.positions@.len() == 0 {
        r == mesh
    } else {
        &&& gathered(r.positions@, mesh.positions@, cache)
        &&& gathered(r.normals@, mesh.normals@, cache)
        &&& gathered(r.colors@, mesh.colors@, cache)
        &&& gathered(r.face_index@, mesh.face_index@, cache)
        &&& forall|i: int|
            0 <= i < r.indices@.len() ==> order::distinct(
                cache,
            )[(#[trigger] r.indices@[i]) as int] == cache[i]
    }
}

/// Reorders a mesh for the vertex cache and numbers its vertices in the order
/// in which they are then used. Positions, normals, colours and face numbers
/// move together.
pub fn optimize_merged_mesh<P: Copy + Default, N: Copy + Default, C: Copy + Default>(
    mesh: MergedMesh<P, N, C>,
) -> (r: MergedMesh<P, N, C>)
    requires
        mesh.valid(),
        mesh.indices@.len() <= u32::MAX,
        reorderable::<P>(),
        reorderable::<N>(),
        reorderable::<C>(),
    ensures
        r.valid(),
        draws_same(&r, &mesh),
        is_reordered(r, mesh),
{
    let vertex_count = mesh.positions.len();
    if vertex_count == 0 || mesh.indices.len() == 0 {
        proof {
            if vertex_count > 0 {
                assert(mesh::is_used(mesh.indices@, 0));
            }
            let p = Seq::<int>::empty();
            assert(is_permutation(p, mesh.indices@.len() as int / 3)) by {
                if mesh.indices@.len() > 0 {
                    assert(mesh.indices@[0] < mesh.positions@.len());
                }
            }
            assert(draws_in_order(&mesh, &mesh, p));
        }
        return mesh;
    }
    let ghost before = mesh;
    let ghost n = vertex_count as int;
    let MergedMesh { positions, normals, colors, face_index, indices } = mesh;
    let plan = vertex_order(indices, vertex_count);
    proof {
        broadcast use vstd::layout::layout_of_primitives;

    }
    let r = MergedMesh {
        positions: remap_vertex_buffer(&positions, &plan.remap),
        normals: remap_vertex_buffer(&normals, &plan.remap),
        colors: remap_vertex_buffer(&colors, &plan.remap),
        face_index: remap_vertex_buffer(&face_index, &plan.remap),
        indices: plan.indices,
    };
    proof {
        let cache = plan.cache@;
        let d = order::distinct(cache);
        lemma_gathered(r.positions@, before.positions@, plan, before.indices@);
        lemma_gathered(r.normals@, before.normals@, plan, before.indices@);
        lemma_gathered(r.colors@, before.colors@, plan, before.indices@);
        lemma_gathered(r.face_index@, before.face_index@, plan, before.indices@);
        assert forall|i: int| 0 <= i < r.indices@.len() implies (#[trigger] r.indices@[i]) < n
            && d[r.indices@[i] as int] == cache[i] by {
            lemma_all_distinct(cache, n);
            let v = cache[i];
            assert(d.contains(v));
            let k = d.index_of(v);
            assert(plan.remap@[d[k] as int] == k);
        }
        assert forall|v: int| 0 <= v < n implies #[trigger] mesh::is_used(r.indices@, v) by {
            let w = d[v];
            order::lemma_distinct(cache);
            assert(d.contains(w));
            let i = cache.index_of(w);
            assert(cache[i] == w);
            assert(plan.remap@[d[v] as int] == v);
            assert(r.indices@[i] == v);
        }
        let count = before.indices@.len() as int / 3;
        let p = choose|p: Seq<int>| #[trigger]
            is_permutation(p, count) && takes_triangles(cache, before.indices@, p);
        assert forall|t: int, k: int|
            #![trigger r.corner(3 * t + k)]
            0 <= t < p.len() && 0 <= k < 3 implies r.corner(3 * t + k) == before.corner(
            3 * p[t] + k,
        ) by {
            let i = 3 * t + k;
            assert(cache[3 * t + k] == before.indices@[3 * p[t] + k]);
            assert(r.indices@[i] == plan.indices@[i]);
        }
        assert(draws_in_order(&r, &before, p));
    }
    r
}

/// The geometry of one face with a colour for each vertex.
pub struct ColoredFace<P, N, C> {
    pub positions: Vec<P>,
    pub normals: Vec<N>,
    pub colors: Vec<C>,
    pub indices: Vec<u32>,
}

impl<P, N, C> ColoredFace<P, N, C> {
    pub open spec fn valid(&self) -> bool {
        &&& self.normals@.len() == self.positions@.len()
        &&& self.colors@.len() == self.positions@.len()
        &&& self.positions@.len() <= u32::MAX
        &&& self.indices@.len() % 3 == 0
        &&& indices_below(self.indices@, self.positions@.len() as int)
        &&& mesh::all_used(self.indices@, self.positions@.len() as int)
    }

    pub open spec fn corner(&self, i: int) -> (P, N, C) {
        let v = self.indices@[i] as int;
        (self.positions@[v], self.normals@[v], self.colors@[v])
    }

    /// Whether this face draws the triangles of another in the order `p`.
    pub open spec fn draws_in_order(&self, other: &ColoredFace<P, N, C>, p: Seq<int>) -> bool {
        forall|t: int, k: int|
            #![trigger self.corner(3 * t + k)]
            0 <= t < p.len() && 0 <= k < 3 ==> self.corner(3 * t + k) == other.corner(
                3 * p[t] + k,
            )
    }
}

/// Reorders the mesh of one face as [`optimize_merged_mesh`] does that of a
/// shell.
pub fn optimize_indexed_mesh<P: Copy + Default, N: Copy + Default, C: Copy + Default>(
    face: ColoredFace<P, N, C>,
) -> (r: ColoredFace<P, N, C>)
    requires
        face.valid(),
        face.indices@.len() <= u32::MAX,
        reorderable::<P>(),
        reorderable::<N>(),
        reorderable::<C>(),
    ensures
        r.valid(),
        r.indices@.len() == face.indices@.len(),
        exists|p: Seq<int>| #[trigger]
            is_permutation(p, face.indices@.len() as int / 3) && r.draws_in_order(&face, p),
        ({
            let cache = vertex_cache_order(face.indices@, face.positions@.len());
            face.positions@.len() > 0 ==> {
                &&& gathered(r.positions@, face.positions@, cache)
                &&& gathered(r.normals@, face.normals@, cache)
                &&& gathered(r.colors@, face.colors@, cache)
                &&& forall|i: int|
                    0 <= i < r.indices@.len() ==> order::distinct(
                        cache,
                    )[(#[trigger] r.indices@[i]) as int] == cache[i]
            }
        }),
        face.positions@.len() == 0 ==> r == face,
{
    if face.positions.len() == 0 {
        proof {
            if face.indices@.len() > 0 {
                assert(face.indices@[0] < face.positions@.len());
            }
            let p = Seq::<int>::empty();
            assert(is_permutation(p, face.indices@.len() as int / 3));
            assert(face.draws_in_order(&face, p));
        }
        return face;
    }
    let mut face_index: Vec<u32> = Vec::new();
    let mut i: usize = 0;
    while i < face.positions.len()
        invariant
            i <= face.positions.len(),
            face_index@.len() == i,
        decreases face.positions.len() - i,
    {
        face_index.push(0);
        i += 1;
    }
    let ghost before = face;
    let ColoredFace { positions, normals, colors, indices } = face;
    let whole = MergedMesh { positions, normals, colors, face_index, indices };
    let ghost merged = whole;
    let m = optimize_merged_mesh(whole);
    let ghost drawn = m;
    let r = ColoredFace {
        positions: m.positions,
        normals: m.normals,
        colors: m.colors,
        indices: m.indices,
    };
    proof {
        let count = before.indices@.len() as int / 3;
        let p = choose|p: Seq<int>| #[trigger]
            is_permutation(p, count) && draws_in_order(&drawn, &merged, p);
        assert forall|t: int, k: int|
            #![trigger r.corner(3 * t + k)]
            0 <= t < p.len() && 0 <= k < 3 implies r.corner(3 * t + k) == before.corner(
            3 * p[t] + k,
        ) by {
            assert(drawn.corner(3 * t + k) == merged.corner(3 * p[t] + k));
        }
        assert(r.draws_in_order(&before, p));
    }
    r
}

} // verus!
