//! Indexed triangle meshes.
//!
//! The vertex data (positions, normals, colours) is carried along without
//! being read, so the types of it are parameters.

use std::collections::{HashMap, HashSet};
use vstd::prelude::*;

use crate::drawn;
use crate::order;
use crate::shell_mesh;

verus! {

broadcast use vstd::std_specs::hash::group_hash_axioms;

/// A corner of a polygon: the number of a position and, if it has one, the
/// number of a normal.
#[derive(Clone, Copy, Debug, PartialEq, Eq, Structural)]
pub struct Corner {
    pub pos: usize,
    pub nor: Option<usize>,
}

/// The polygons of a mesh, by their number of corners.
pub struct Polygons {
    pub triangles: Vec<[Corner; 3]>,
    pub quads: Vec<[Corner; 4]>,
    pub others: Vec<Vec<Corner>>,
}

/// The corners of the triangles that a polygon falls into: a fan around its
/// first corner.
pub open spec fn fan(polygon: Seq<Corner>) -> Seq<Corner>
    decreases polygon.len(),
{
    if polygon.len() < 3 {
        Seq::empty()
    } else {
        let n = polygon.len();
        fan(polygon.drop_last()) + seq![polygon[0], polygon[n - 2], polygon[n - 1]]
    }
}

pub open spec fn triangle_corners(triangles: Seq<[Corner; 3]>) -> Seq<Corner>
    decreases triangles.len(),
{
    if triangles.len() == 0 {
        Seq::empty()
    } else {
        triangle_corners(triangles.drop_last()) + fan(triangles.last()@)
    }
}

pub open spec fn quad_corners(quads: Seq<[Corner; 4]>) -> Seq<Corner>
    decreases quads.len(),
{
    if quads.len() == 0 {
        Seq::empty()
    } else {
        quad_corners(quads.drop_last()) + fan(quads.last()@)
    }
}

pub open spec fn polygon_corners(polygons: Seq<Vec<Corner>>) -> Seq<Corner>
    decreases polygons.len(),
{
    if polygons.len() == 0 {
        Seq::empty()
    } else {
        polygon_corners(polygons.drop_last()) + fan(polygons.last()@)
    }
}

impl Polygons {
    /// The corners of all triangles: first the triangles, next those of the
    /// quads, last those of the other polygons.
    pub open spec fn corners(&self) -> Seq<Corner> {
        triangle_corners(self.triangles@) + quad_corners(self.quads@) + polygon_corners(
            self.others@,
        )
    }

    /// The corners name positions and normals that there are.
    pub open spec fn fits(&self, positions: int, normals: int) -> bool {
        forall|i: int|
            0 <= i < self.corners().len() ==> {
                let corner = #[trigger] self.corners()[i];
                corner.pos < positions && (corner.nor matches Some(n) ==> n < normals)
            }
    }
}

proof fn lemma_fan_of_three(polygon: Seq<Corner>)
    requires
        polygon.len() == 3,
    ensures
        fan(polygon) == seq![polygon[0], polygon[1], polygon[2]],
{
    assert(fan(polygon.drop_last()) =~= Seq::empty());
    assert(fan(polygon) =~= seq![polygon[0], polygon[1], polygon[2]]);
}

proof fn lemma_fan_of_four(polygon: Seq<Corner>)
    requires
        polygon.len() == 4,
    ensures
        fan(polygon) == seq![
            polygon[0],
            polygon[1],
            polygon[2],
            polygon[0],
            polygon[2],
            polygon[3],
        ],
{
    lemma_fan_of_three(polygon.drop_last());
    assert(fan(polygon) =~= seq![
        polygon[0],
        polygon[1],
        polygon[2],
        polygon[0],
        polygon[2],
        polygon[3],
    ]);
}

/// A fan of a polygon has three corners for each corner but two.
proof fn lemma_fan_length(polygon: Seq<Corner>)
    ensures
        fan(polygon).len() == if polygon.len() < 3 {
            0
        } else {
            3 * (polygon.len() - 2)
        },
    decreases polygon.len(),
{
    if polygon.len() >= 3 {
        lemma_fan_length(polygon.drop_last());
    }
}

fn push_fan(out: &mut Vec<Corner>, polygon: &Vec<Corner>)
    ensures
        final(out)@ == old(out)@ + fan(polygon@),
{
    let ghost start = out@;
    let mut n: usize = 2;
    if polygon.len() < 3 {
        assert(start + fan(polygon@) =~= start);
        return ;
    }
    assert(start + fan(polygon@.take(2)) =~= start);
    while n < polygon.len()
        invariant
            2 <= n <= polygon.len(),
            out@ == start + fan(polygon@.take(n as int)),
        decreases polygon.len() - n,
    {
        let ghost before = out@;
        out.push(polygon[0]);
        out.push(polygon[n - 1]);
        out.push(polygon[n]);
        n += 1;
        proof {
            let longer = polygon@.take(n as int);
            assert(longer.drop_last() =~= polygon@.take(n - 1));
            assert(out@ =~= before + seq![longer[0], longer[n - 2], longer[n - 1]]);
            assert(out@ =~= start + fan(longer));
        }
    }
    assert(polygon@.take(polygon.len() as int) =~= polygon@);
}

impl Polygons {
    /// The corners of all triangles that the polygons fall into.
    pub fn triangulate(&self) -> (r: Vec<Corner>)
        ensures
            r@ == self.corners(),
    {
        let mut out: Vec<Corner> = Vec::new();
        let mut i: usize = 0;
        while i < self.triangles.len()
            invariant
                i <= self.triangles.len(),
                out@ == triangle_corners(self.triangles@.take(i as int)),
            decreases self.triangles.len() - i,
        {
            let t: [Corner; 3] = self.triangles[i];
            let ghost before = out@;
            out.push(t[0]);
            out.push(t[1]);
            out.push(t[2]);
            proof {
                let longer = self.triangles@.take(i + 1);
                assert(longer.drop_last() =~= self.triangles@.take(i as int));
                lemma_fan_of_three(t@);
                assert(out@ =~= before + fan(t@));
            }
            i += 1;
        }
        assert(self.triangles@.take(self.triangles.len() as int) =~= self.triangles@);
        let ghost first = out@;
        let mut j: usize = 0;
        assert(first + quad_corners(self.quads@.take(0)) =~= first);
        while j < self.quads.len()
            invariant
                j <= self.quads.len(),
                out@ == first + quad_corners(self.quads@.take(j as int)),
            decreases self.quads.len() - j,
        {
            let q: [Corner; 4] = self.quads[j];
            let ghost before = out@;
            out.push(q[0]);
            out.push(q[1]);
            out.push(q[2]);
            out.push(q[0]);
            out.push(q[2]);
            out.push(q[3]);
            proof {
                let longer = self.quads@.take(j + 1);
                assert(longer.drop_last() =~= self.quads@.take(j as int));
                lemma_fan_of_four(q@);
                assert(out@ =~= before + fan(q@));
                assert(out@ =~= first + quad_corners(longer));
            }
            j += 1;
        }
        assert(self.quads@.take(self.quads.len() as int) =~= self.quads@);
        let ghost second = out@;
        let mut k: usize = 0;
        assert(second + polygon_corners(self.others@.take(0)) =~= second);
        while k < self.others.len()
            invariant
                k <= self.others.len(),
                out@ == second + polygon_corners(self.others@.take(k as int)),
            decreases self.others.len() - k,
        {
            let ghost before = out@;
            push_fan(&mut out, &self.others[k]);
            proof {
                let longer = self.others@.take(k + 1);
                assert(longer.drop_last() =~= self.others@.take(k as int));
                assert(out@ =~= second + polygon_corners(longer));
            }
            k += 1;
        }
        assert(self.others@.take(self.others.len() as int) =~= self.others@);
        out
    }
}

/// A number for a corner with a normal; no two such corners share one.
spec fn corner_key(pos: usize, nor: usize) -> int {
    pos * 0x1_0000_0000_0000_0000 + nor
}

/// Looks up the vertex of a corner that was seen before.
struct CornerIndex {
    with_normal: HashMap<u128, u32>,
    without_normal: HashMap<usize, u32>,
}

impl CornerIndex {
    spec fn at(&self, corner: Corner) -> Option<u32> {
        match corner.nor {
            Some(nor) => {
                let key = corner_key(corner.pos, nor) as u128;
                if self.with_normal@.contains_key(key) {
                    Some(self.with_normal@[key])
                } else {
                    None
                }
            },
            None => if self.without_normal@.contains_key(corner.pos) {
                Some(self.without_normal@[corner.pos])
            } else {
                None
            },
        }
    }

    fn new() -> (r: CornerIndex)
        ensures
            forall|corner: Corner| #[trigger] r.at(corner) is None,
    {
        CornerIndex { with_normal: HashMap::new(), without_normal: HashMap::new() }
    }

    fn key(pos: usize, nor: usize) -> (r: u128)
        ensures
            r == corner_key(pos, nor),
    {
        let p: u128 = pos as u128;
        let n: u128 = nor as u128;
        p * 0x1_0000_0000_0000_0000 + n
    }

    fn get(&self, corner: Corner) -> (r: Option<u32>)
        ensures
            r == self.at(corner),
    {
        match corner.nor {
            Some(nor) => match self.with_normal.get(&Self::key(corner.pos, nor)) {
                Some(v) => Some(*v),
                None => None,
            },
            None => match self.without_normal.get(&corner.pos) {
                Some(v) => Some(*v),
                None => None,
            },
        }
    }

    fn insert(&mut self, corner: Corner, vertex: u32)
        ensures
            final(self).at(corner) == Some(vertex),
            forall|other: Corner|
                other != corner ==> #[trigger] final(self).at(other) == old(self).at(other),
    {
        match corner.nor {
            Some(nor) => {
                let key = Self::key(corner.pos, nor);
                self.with_normal.insert(key, vertex);
            },
            None => {
                self.without_normal.insert(corner.pos, vertex);
            },
        }
    }
}

/// The vertices of a mesh, each corner once in the order in which it first
/// stands there, and for each corner the number of its vertex.
pub fn index_corners(corners: &[Corner]) -> (r: (Vec<Corner>, Vec<u32>))
    requires
        corners@.len() <= u32::MAX,
    ensures
        r.0@ == order::distinct(corners@),
        r.1@.len() == corners@.len(),
        forall|i: int|
            0 <= i < corners@.len() ==> (#[trigger] r.1@[i]) < r.0@.len() && r.0@[r.1@[i] as int]
                == corners@[i],
{
    let mut lookup = CornerIndex::new();
    let mut unique: Vec<Corner> = Vec::new();
    let mut indices: Vec<u32> = Vec::new();
    let mut i: usize = 0;
    assert(corners@.take(0) =~= Seq::empty());
    while i < corners.len()
        invariant
            i <= corners.len(),
            corners@.len() <= u32::MAX,
            unique@ == order::distinct(corners@.take(i as int)),
            unique@.len() <= i,
            indices@.len() == i,
            forall|k: int|
                0 <= k < i ==> (#[trigger] indices@[k]) < unique@.len()
                    && unique@[indices@[k] as int] == corners@[k],
            forall|corner: Corner|
                match #[trigger] lookup.at(corner) {
                    Some(v) => v < unique@.len() && unique@[v as int] == corner,
                    None => !unique@.contains(corner),
                },
        decreases corners.len() - i,
    {
        let corner: Corner = corners[i];
        let ghost before = unique@;
        proof {
            let longer = corners@.take(i + 1);
            assert(longer.drop_last() =~= corners@.take(i as int));
            assert(longer.last() == corner);
        }
        match lookup.get(corner) {
            Some(v) => {
                assert(before.contains(before[v as int]));
                indices.push(v);
            },
            None => {
                let v: u32 = unique.len() as u32;
                let ghost old_lookup = lookup;
                lookup.insert(corner, v);
                unique.push(corner);
                indices.push(v);
                assert forall|c: Corner|
                    match #[trigger] lookup.at(c) {
                        Some(w) => w < unique@.len() && unique@[w as int] == c,
                        None => !unique@.contains(c),
                    } by {
                    if c != corner {
                        assert(lookup.at(c) == old_lookup.at(c));
                        if unique@.contains(c) {
                            let k = unique@.index_of(c);
                            assert(before[k] == c);
                            assert(before.contains(c));
                        }
                    }
                }
            },
        }
        i += 1;
    }
    assert(corners@.take(corners.len() as int) =~= corners@);
    (unique, indices)
}

/// The vertex data and the triangles of one face.
pub struct FaceGeometry<P, N> {
    pub positions: Vec<P>,
    pub normals: Vec<N>,
    pub indices: Vec<u32>,
}

impl<P, N> FaceGeometry<P, N> {
    /// There is one normal for each position, whole triangles, each index
    /// names a vertex, and each vertex is named.
    pub open spec fn valid(&self) -> bool {
        &&& self.normals@.len() == self.positions@.len()
        &&& self.indices@.len() % 3 == 0
        &&& forall|i: int|
            0 <= i < self.indices@.len() ==> (#[trigger] self.indices@[i]) < self.positions@.len()
        &&& all_used(self.indices@, self.positions@.len() as int)
    }
}

/// Whether each of `count` vertices stands among the indices.
pub open spec fn all_used(indices: Seq<u32>, count: int) -> bool {
    forall|v: int| 0 <= v < count ==> #[trigger] is_used(indices, v)
}

pub open spec fn is_used(indices: Seq<u32>, v: int) -> bool {
    exists|i: int| 0 <= i < indices.len() && #[trigger] indices[i] == v
}

/// The normal of a corner, or the given one if it has none.
pub open spec fn corner_normal<N>(normals: Seq<N>, default: N, corner: Corner) -> N {
    match corner.nor {
        Some(n) => normals[n as int],
        None => default,
    }
}

proof fn lemma_corners_in_threes(polygons: &Polygons)
    ensures
        polygons.corners().len() % 3 == 0,
{
    lemma_triangles_in_threes(polygons.triangles@);
    lemma_quads_in_threes(polygons.quads@);
    lemma_others_in_threes(polygons.others@);
}

proof fn lemma_triangles_in_threes(triangles: Seq<[Corner; 3]>)
    ensures
        triangle_corners(triangles).len() % 3 == 0,
    decreases triangles.len(),
{
    if triangles.len() > 0 {
        lemma_triangles_in_threes(triangles.drop_last());
        lemma_fan_length(triangles.last()@);
    }
}

proof fn lemma_quads_in_threes(quads: Seq<[Corner; 4]>)
    ensures
        quad_corners(quads).len() % 3 == 0,
    decreases quads.len(),
{
    if quads.len() > 0 {
        lemma_quads_in_threes(quads.drop_last());
        lemma_fan_length(quads.last()@);
    }
}

proof fn lemma_others_in_threes(polygons: Seq<Vec<Corner>>)
    ensures
        polygon_corners(polygons).len() % 3 == 0,
    decreases polygons.len(),
{
    if polygons.len() > 0 {
        lemma_others_in_threes(polygons.drop_last());
        lemma_fan_length(polygons.last()@);
    }
}

/// The indexed geometry of one face. Corners with the same position and the
/// same normal share a vertex; a corner without a normal takes the default.
pub fn build_indexed_face_geometry<P: Copy, N: Copy>(
    positions: &[P],
    normals: &[N],
    default_normal: N,
    polygons: &Polygons,
) -> (r: FaceGeometry<P, N>)
    requires
        polygons.fits(positions@.len() as int, normals@.len() as int),
        polygons.corners().len() <= u32::MAX,
    ensures
        r.valid(),
        r.positions@.len() == order::distinct(polygons.corners()).len(),
        r.indices@.len() == polygons.corners().len(),
        forall|i: int|
            0 <= i < r.indices@.len() ==> {
                let corner = polygons.corners()[i];
                let v = (#[trigger] r.indices@[i]) as int;
                &&& order::distinct(polygons.corners())[v] == corner
                &&& r.positions@[v] == positions@[corner.pos as int]
                &&& r.normals@[v] == corner_normal(normals@, default_normal, corner)
            },
{
    let corners = polygons.triangulate();
    let (unique, indices) = index_corners(corners.as_slice());
    let ghost all = corners@;
    proof {
        order::lemma_distinct(all);
        lemma_corners_in_threes(polygons);
        assert forall|k: int| 0 <= k < unique@.len() implies {
            let corner = #[trigger] unique@[k];
            corner.pos < positions@.len() && (corner.nor matches Some(n) ==> n < normals@.len())
        } by {
            assert(order::distinct(all).contains(unique@[k]));
            let i = all.index_of(unique@[k]);
            assert(all[i] == unique@[k]);
        }
    }
    let mut out_positions: Vec<P> = Vec::new();
    let mut out_normals: Vec<N> = Vec::new();
    let mut k: usize = 0;
    while k < unique.len()
        invariant
            k <= unique.len(),
            out_positions@.len() == k,
            out_normals@.len() == k,
            forall|j: int| 0 <= j < unique@.len() ==> {
                let corner = #[trigger] unique@[j];
                corner.pos < positions@.len() && (corner.nor matches Some(n) ==> n
                    < normals@.len())
            },
            forall|j: int|
                0 <= j < k ==> #[trigger] out_positions@[j] == positions@[unique@[j].pos as int],
            forall|j: int|
                0 <= j < k ==> #[trigger] out_normals@[j] == corner_normal(
                    normals@,
                    default_normal,
                    unique@[j],
                ),
        decreases unique.len() - k,
    {
        let corner: Corner = unique[k];
        out_positions.push(positions[corner.pos]);
        out_normals.push(
            match corner.nor {
                Some(n) => normals[n],
                None => default_normal,
            },
        );
        k += 1;
    }
    let r = FaceGeometry { positions: out_positions, normals: out_normals, indices };
    proof {
        assert forall|v: int| 0 <= v < r.positions@.len() implies #[trigger] is_used(
            r.indices@,
            v,
        ) by {
            assert(order::distinct(all).contains(unique@[v]));
            let i = all.index_of(unique@[v]);
            assert(all[i] == unique@[v]);
            assert(unique@[r.indices@[i] as int] == unique@[v]);
            assert(r.indices@[i] == v);
        }
    }
    r
}

/// The geometry of one face and the colour of its vertices.
pub struct FaceChunk<P, N, C> {
    pub geometry: FaceGeometry<P, N>,
    pub color: C,
}

/// The faces of a shell in one mesh. Each vertex keeps the number of the face
/// that it comes from.
pub struct MergedMesh<P, N, C> {
    pub positions: Vec<P>,
    pub normals: Vec<N>,
    pub colors: Vec<C>,
    pub face_index: Vec<u32>,
    pub indices: Vec<u32>,
}

impl<P, N, C> MergedMesh<P, N, C> {
    /// All vertex data has the same length, the triangles are whole, each
    /// index names a vertex, and each vertex is named.
    pub open spec fn valid(&self) -> bool {
        &&& self.normals@.len() == self.positions@.len()
        &&& self.colors@.len() == self.positions@.len()
        &&& self.face_index@.len() == self.positions@.len()
        &&& self.positions@.len() <= u32::MAX
        &&& self.indices@.len() % 3 == 0
        &&& forall|i: int|
            0 <= i < self.indices@.len() ==> (#[trigger] self.indices@[i]) < self.positions@.len()
        &&& all_used(self.indices@, self.positions@.len() as int)
    }

    /// What is drawn at the corner that the index at `i` stands for.
    pub open spec fn corner(&self, i: int) -> (P, N, C, u32) {
        let v = self.indices@[i] as int;
        (self.positions@[v], self.normals@[v], self.colors@[v], self.face_index@[v])
    }
}

pub open spec fn joined_positions<P, N, C>(chunks: Seq<FaceChunk<P, N, C>>) -> Seq<P>
    decreases chunks.len(),
{
    if chunks.len() == 0 {
        Seq::empty()
    } else {
        joined_positions(chunks.drop_last()) + chunks.last().geometry.positions@
    }
}

pub open spec fn joined_normals<P, N, C>(chunks: Seq<FaceChunk<P, N, C>>) -> Seq<N>
    decreases chunks.len(),
{
    if chunks.len() == 0 {
        Seq::empty()
    } else {
        joined_normals(chunks.drop_last()) + chunks.last().geometry.normals@
    }
}

pub open spec fn joined_colors<P, N, C>(chunks: Seq<FaceChunk<P, N, C>>) -> Seq<C>
    decreases chunks.len(),
{
    if chunks.len() == 0 {
        Seq::empty()
    } else {
        joined_colors(chunks.drop_last()) + Seq::new(
            chunks.last().geometry.positions@.len(),
            |i: int| chunks.last().color,
        )
    }
}

/// For each vertex the number of its face; the first face has number `base`.
pub open spec fn joined_faces<P, N, C>(chunks: Seq<FaceChunk<P, N, C>>, base: int) -> Seq<u32>
    decreases chunks.len(),
{
    if chunks.len() == 0 {
        Seq::empty()
    } else {
        joined_faces(chunks.drop_last(), base) + Seq::new(
            chunks.last().geometry.positions@.len(),
            |i: int| (base + chunks.len() - 1) as u32,
        )
    }
}

/// The indices of all faces, those of each moved behind the vertices of the
/// faces before it.
pub open spec fn joined_indices<P, N, C>(chunks: Seq<FaceChunk<P, N, C>>) -> Seq<u32>
    decreases chunks.len(),
{
    if chunks.len() == 0 {
        Seq::empty()
    } else {
        let offset = joined_positions(chunks.drop_last()).len();
        joined_indices(chunks.drop_last()) + chunks.last().geometry.indices@.map_values(
            |v: u32| (v + offset) as u32,
        )
    }
}

/// The faces of a shell are fit to be merged: each is valid, and the vertices
/// and faces can be numbered.
pub open spec fn mergeable<P, N, C>(chunks: Seq<FaceChunk<P, N, C>>, base: int) -> bool {
    &&& forall|i: int| 0 <= i < chunks.len() ==> (#[trigger] chunks[i]).geometry.valid()
    &&& joined_positions(chunks).len() <= u32::MAX
    &&& 0 <= base
    &&& base + chunks.len() <= u32::MAX
}

proof fn lemma_joined_positions_grow<P, N, C>(chunks: Seq<FaceChunk<P, N, C>>, n: int)
    requires
        0 <= n <= chunks.len(),
    ensures
        joined_positions(chunks.take(n)).len() <= joined_positions(chunks).len(),
    decreases chunks.len(),
{
    if n < chunks.len() {
        lemma_joined_positions_grow(chunks.drop_last(), n);
        assert(chunks.drop_last().take(n) =~= chunks.take(n));
    } else {
        assert(chunks.take(n) =~= chunks);
    }
}

/// One mesh of all faces of a shell. The faces keep their order and are
/// numbered from `base_face_id`.
pub fn merge_faces<P: Copy, N: Copy, C: Copy>(
    chunks: &[FaceChunk<P, N, C>],
    base_face_id: usize,
) -> (r: MergedMesh<P, N, C>)
    requires
        mergeable(chunks@, base_face_id as int),
    ensures
        r.valid(),
        r.positions@ == joined_positions(chunks@),
        r.normals@ == joined_normals(chunks@),
        r.colors@ == joined_colors(chunks@),
        r.face_index@ == joined_faces(chunks@, base_face_id as int),
        r.indices@ == joined_indices(chunks@),
        drawn::keeps_faces(r, chunks@, base_face_id as int),
{
    let mut mesh: MergedMesh<P, N, C> = MergedMesh {
        positions: Vec::new(),
        normals: Vec::new(),
        colors: Vec::new(),
        face_index: Vec::new(),
        indices: Vec::new(),
    };
    let mut i: usize = 0;
    while i < chunks.len()
        invariant
            i <= chunks.len(),
            mergeable(chunks@, base_face_id as int),
            mesh.valid(),
            mesh.positions@ == joined_positions(chunks@.take(i as int)),
            mesh.normals@ == joined_normals(chunks@.take(i as int)),
            mesh.colors@ == joined_colors(chunks@.take(i as int)),
            mesh.face_index@ == joined_faces(chunks@.take(i as int), base_face_id as int),
            mesh.indices@ == joined_indices(chunks@.take(i as int)),
        decreases chunks.len() - i,
    {
        let chunk = &chunks[i];
        let ghost before = mesh;
        let ghost longer = chunks@.take(i + 1);
        proof {
            assert(longer.drop_last() =~= chunks@.take(i as int));
            assert(longer.last() == chunks@[i as int]);
            assert(chunks@[i as int].geometry.valid());
            lemma_joined_positions_grow(chunks@, i + 1);
        }
        let offset: u32 = mesh.positions.len() as u32;
        let face: u32 = (base_face_id + i) as u32;
        let mut j: usize = 0;
        while j < chunk.geometry.positions.len()
            invariant
                j <= chunk.geometry.positions.len(),
                chunk.geometry.valid(),
                mesh.indices@ == before.indices@,
                mesh.positions@ == before.positions@ + chunk.geometry.positions@.take(j as int),
                mesh.normals@ == before.normals@ + chunk.geometry.normals@.take(j as int),
                mesh.colors@ == before.colors@ + Seq::new(j as nat, |k: int| chunk.color),
                mesh.face_index@ == before.face_index@ + Seq::new(j as nat, |k: int| face),
            decreases chunk.geometry.positions.len() - j,
        {
            mesh.positions.push(chunk.geometry.positions[j]);
            mesh.normals.push(chunk.geometry.normals[j]);
            mesh.colors.push(chunk.color);
            mesh.face_index.push(face);
            j += 1;
            proof {
                let g = chunk.geometry;
                assert(mesh.positions@ =~= before.positions@ + g.positions@.take(j as int));
                assert(mesh.normals@ =~= before.normals@ + g.normals@.take(j as int));
                assert(mesh.colors@ =~= before.colors@ + Seq::new(j as nat, |k: int| chunk.color));
                assert(mesh.face_index@ =~= before.face_index@ + Seq::new(j as nat, |k: int| face));
            }
        }
        let ghost moved = chunk.geometry.indices@.map_values(|v: u32| (v + offset) as u32);
        let mut k: usize = 0;
        let ghost filled = mesh;
        assert(mesh.indices@ + moved.take(0) =~= mesh.indices@);
        while k < chunk.geometry.indices.len()
            invariant
                k <= chunk.geometry.indices.len(),
                chunk.geometry.valid(),
                offset + chunk.geometry.positions@.len() <= u32::MAX,
                moved == chunk.geometry.indices@.map_values(|v: u32| (v + offset) as u32),
                mesh.positions == filled.positions,
                mesh.normals == filled.normals,
                mesh.colors == filled.colors,
                mesh.face_index == filled.face_index,
                mesh.indices@ == before.indices@ + moved.take(k as int),
            decreases chunk.geometry.indices.len() - k,
        {
            mesh.indices.push(chunk.geometry.indices[k] + offset);
            k += 1;
            assert(mesh.indices@ =~= before.indices@ + moved.take(k as int));
        }
        proof {
            let g = chunk.geometry;
            let n = g.positions@.len();
            let m = before.indices@.len() as int;
            assert(g.positions@.take(n as int) =~= g.positions@);
            assert(g.normals@.take(n as int) =~= g.normals@);
            assert(moved.take(moved.len() as int) =~= moved);
            assert(mesh.positions@ == joined_positions(longer));
            assert(mesh.normals@ == joined_normals(longer));
            assert(Seq::new(n, |x: int| chunk.color) =~= Seq::new(
                longer.last().geometry.positions@.len(),
                |x: int| longer.last().color,
            ));
            assert(mesh.colors@ == joined_colors(longer));
            assert(Seq::new(n, |x: int| face) =~= Seq::new(
                longer.last().geometry.positions@.len(),
                |x: int| (base_face_id + longer.len() - 1) as u32,
            ));
            assert(mesh.face_index@ == joined_faces(longer, base_face_id as int));
            assert(moved =~= longer.last().geometry.indices@.map_values(
                |v: u32| (v + joined_positions(longer.drop_last()).len()) as u32,
            ));
            assert(mesh.indices@ == joined_indices(longer));
            assert forall|x: int| 0 <= x < mesh.indices@.len() implies (#[trigger] mesh.indices@[x])
                < mesh.positions@.len() by {
                if x < m {
                    assert(mesh.indices@[x] == before.indices@[x]);
                } else {
                    assert(mesh.indices@[x] == g.indices@[x - m] + offset);
                }
            }
            assert forall|v: int| 0 <= v < mesh.positions@.len() implies #[trigger] is_used(
                mesh.indices@,
                v,
            ) by {
                if v < offset {
                    assert(is_used(before.indices@, v));
                    let x = choose|x: int|
                        0 <= x < before.indices@.len() && #[trigger] before.indices@[x] == v;
                    assert(mesh.indices@[x] == v);
                } else {
                    assert(is_used(g.indices@, v - offset));
                    let x = choose|x: int|
                        0 <= x < g.indices@.len() && #[trigger] g.indices@[x] == v - offset;
                    assert(mesh.indices@[m + x] == v);
                }
            }
        }
        i += 1;
    }
    assert(chunks@.take(chunks.len() as int) =~= chunks@);
    proof {
        assert(shell_mesh::is_join(mesh, chunks@, base_face_id as int));
        drawn::law_join_keeps_faces(mesh, chunks@, base_face_id as int);
    }
    mesh
}

/// The number of triangles of each face.
pub fn triangle_counts<P, N, C>(chunks: &[FaceChunk<P, N, C>]) -> (r: Vec<usize>)
    ensures
        r@.len() == chunks@.len(),
        forall|i: int|
            0 <= i < r@.len() ==> #[trigger] r@[i] == chunks@[i].geometry.indices@.len() / 3,
{
    let mut out: Vec<usize> = Vec::new();
    let mut i: usize = 0;
    while i < chunks.len()
        invariant
            i <= chunks.len(),
            out@.len() == i,
            forall|k: int|
                0 <= k < i ==> #[trigger] out@[k] == chunks@[k].geometry.indices@.len() / 3,
        decreases chunks.len() - i,
    {
        out.push(chunks[i].geometry.indices.len() / 3);
        i += 1;
    }
    out
}

} // verus!
