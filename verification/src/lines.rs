//! Lines drawn over a mesh: the edges of its triangles, the border of a face
//! and sampled curves.

use std::collections::{HashMap, HashSet};
use vstd::prelude::*;

use crate::order;

verus! {

broadcast use vstd::std_specs::hash::group_hash_axioms;

/// The edge between two vertices, the lower number first.
pub open spec fn edge(a: u32, b: u32) -> (u32, u32) {
    if a < b {
        (a, b)
    } else {
        (b, a)
    }
}

/// The three edges of each whole triangle, from its first corner round.
pub open spec fn triangle_edges(indices: Seq<u32>) -> Seq<(u32, u32)> {
    Seq::new(
        (indices.len() / 3 * 3) as nat,
        |e: int| edge(indices[e], indices[e / 3 * 3 + (e % 3 + 1) % 3]),
    )
}

/// The two ends of each edge, one after the other.
pub open spec fn edge_ends(edges: Seq<(u32, u32)>) -> Seq<u32> {
    Seq::new(
        2 * edges.len(),
        |i: int|
            if i % 2 == 0 {
                edges[i / 2].0
            } else {
                edges[i / 2].1
            },
    )
}

spec fn edge_key(e: (u32, u32)) -> int {
    e.0 * 0x1_0000_0000 + e.1
}

/// The edges of a triangle mesh as a list of lines. An edge that several
/// triangles share stands in it once, where it first occurs.
pub fn polygon_edge_lines(indices: &[u32]) -> (r: Vec<u32>)
    ensures
        r@ == edge_ends(order::distinct(triangle_edges(indices@))),
{
    let ghost all = triangle_edges(indices@);
    let mut seen: HashSet<u64> = HashSet::new();
    let mut out: Vec<u32> = Vec::new();
    let mut t: usize = 0;
    let count: usize = indices.len() / 3 * 3;
    let ghost mut found: Seq<(u32, u32)> = Seq::empty();
    assert(all.take(0) =~= Seq::empty());
    assert(out@ =~= edge_ends(found));
    while t < count
        invariant
            t <= count,
            count <= indices.len(),
            count == indices.len() / 3 * 3,
            all == triangle_edges(indices@),
            found == order::distinct(all.take(t as int)),
            out@ == edge_ends(found),
            forall|e: (u32, u32)|
                seen@.contains(#[trigger] edge_key(e) as u64) <==> found.contains(e),
        decreases count - t,
    {
        let first: usize = t / 3 * 3;
        let next: usize = first + (t % 3 + 1) % 3;
        let a: u32 = indices[t];
        let b: u32 = indices[next];
        let (low, high) = if a < b {
            (a, b)
        } else {
            (b, a)
        };
        let key: u64 = low as u64 * 0x1_0000_0000 + high as u64;
        proof {
            let longer = all.take(t + 1);
            assert(longer.drop_last() =~= all.take(t as int));
            assert(longer.last() == (low, high));
            assert(key == edge_key((low, high)));
        }
        if !seen.contains(&key) {
            let ghost before = found;
            let ghost old_seen = seen@;
            seen.insert(key);
            out.push(low);
            out.push(high);
            proof {
                found = found.push((low, high));
                assert(out@ =~= edge_ends(found));
                assert forall|e: (u32, u32)|
                    seen@.contains(#[trigger] edge_key(e) as u64) <==> found.contains(e) by {
                    assert(old_seen.contains(edge_key(e) as u64) <==> before.contains(e));
                    assert(found[before.len() as int] == (low, high));
                    if before.contains(e) {
                        assert(found[before.index_of(e)] == e);
                    }
                    if found.contains(e) && e != (low, high) {
                        assert(before[found.index_of(e)] == e);
                    }
                    if edge_key(e) as u64 == key {
                        assert(e.0 == low && e.1 == high);
                    }
                }
            }
        }
        t += 1;
    }
    assert(all.take(all.len() as int) =~= all);
    out
}

/// The edge between two positions, the lower number first.
pub open spec fn border_edge(a: usize, b: usize) -> (usize, usize) {
    if a < b {
        (a, b)
    } else {
        (b, a)
    }
}

/// The edges of the given triangles, three for each.
pub open spec fn position_edges(triangles: Seq<[usize; 3]>) -> Seq<(usize, usize)> {
    Seq::new(
        3 * triangles.len(),
        |e: int| border_edge(triangles[e / 3]@[e % 3], triangles[e / 3]@[(e % 3 + 1) % 3]),
    )
}

pub open spec fn occurrences(edges: Seq<(usize, usize)>, e: (usize, usize)) -> nat
    decreases edges.len(),
{
    if edges.len() == 0 {
        0
    } else {
        occurrences(edges.drop_last(), e) + if edges.last() == e {
            1nat
        } else {
            0nat
        }
    }
}

/// Those of the first edges that occur once among all of them.
pub open spec fn single_edges(
    edges: Seq<(usize, usize)>,
    all: Seq<(usize, usize)>,
) -> Seq<(usize, usize)>
    decreases edges.len(),
{
    if edges.len() == 0 {
        Seq::empty()
    } else {
        let before = single_edges(edges.drop_last(), all);
        if occurrences(all, edges.last()) == 1 {
            before.push(edges.last())
        } else {
            before
        }
    }
}

/// The edges that belong to one triangle only.
pub open spec fn border(triangles: Seq<[usize; 3]>) -> Seq<(usize, usize)> {
    single_edges(position_edges(triangles), position_edges(triangles))
}

spec fn border_key(e: (usize, usize)) -> int {
    e.0 * 0x1_0000_0000_0000_0000 + e.1
}

spec fn count_at(counts: Map<u128, u64>, e: (usize, usize)) -> int {
    let key = border_key(e) as u128;
    if counts.contains_key(key) {
        counts[key] as int
    } else {
        0
    }
}

/// The edges of a triangle mesh that belong to one triangle only, as pairs of
/// position numbers. They stand in the order of the triangles.
pub fn extract_mesh_edges(triangles: &[[usize; 3]]) -> (r: Vec<(usize, usize)>)
    ensures
        r@ == border(triangles@),
{
    let ghost all = position_edges(triangles@);
    let mut edges: Vec<(usize, usize)> = Vec::new();
    let mut i: usize = 0;
    while i < triangles.len()
        invariant
            i <= triangles.len(),
            all == position_edges(triangles@),
            edges@ == all.take(3 * i),
        decreases triangles.len() - i,
    {
        let t: [usize; 3] = triangles[i];
        let mut k: usize = 0;
        while k < 3
            invariant
                i < triangles.len(),
                k <= 3,
                t == triangles@[i as int],
                all == position_edges(triangles@),
                edges@ == all.take(3 * i + k),
            decreases 3 - k,
        {
            let a: usize = t[k];
            let b: usize = t[(k + 1) % 3];
            let e: (usize, usize) = if a < b {
                (a, b)
            } else {
                (b, a)
            };
            edges.push(e);
            assert(all[3 * i + k] == e);
            assert(edges@ =~= all.take(3 * i + k + 1));
            k += 1;
        }
        i += 1;
    }
    assert(all.take(all.len() as int) =~= all);
    let mut counts: HashMap<u128, u64> = HashMap::new();
    let mut j: usize = 0;
    assert(all.take(0) =~= Seq::empty());
    while j < edges.len()
        invariant
            j <= edges.len(),
            edges@ == all,
            forall|e: (usize, usize)| #[trigger]
                count_at(counts@, e) == occurrences(all.take(j as int), e),
        decreases edges.len() - j,
    {
        let e = edges[j];
        let key: u128 = e.0 as u128 * 0x1_0000_0000_0000_0000 + e.1 as u128;
        assert(key == border_key(e));
        let known: u64 = match counts.get(&key) {
            Some(n) => *n,
            None => 0,
        };
        assert(known == count_at(counts@, e));
        proof {
            lemma_occurrences_bound(all.take(j as int), e);
        }
        let ghost before = counts@;
        counts.insert(key, known + 1);
        proof {
            let longer = all.take(j + 1);
            assert(longer.drop_last() =~= all.take(j as int));
            assert(longer.last() == e);
            assert forall|f: (usize, usize)| #[trigger] count_at(counts@, f) == occurrences(
                longer,
                f,
            ) by {
                assert(count_at(before, f) == occurrences(all.take(j as int), f));
                if border_key(f) as u128 == key {
                    assert(f == e);
                }
            }
        }
        j += 1;
    }
    assert(all.take(all.len() as int) =~= all);
    let mut out: Vec<(usize, usize)> = Vec::new();
    let mut k: usize = 0;
    while k < edges.len()
        invariant
            k <= edges.len(),
            edges@ == all,
            forall|e: (usize, usize)| #[trigger] count_at(counts@, e) == occurrences(all, e),
            out@ == single_edges(all.take(k as int), all),
        decreases edges.len() - k,
    {
        let e = edges[k];
        let key: u128 = e.0 as u128 * 0x1_0000_0000_0000_0000 + e.1 as u128;
        assert(key == border_key(e));
        let known: u64 = match counts.get(&key) {
            Some(n) => *n,
            None => 0,
        };
        assert(known == count_at(counts@, e));
        assert(all.take(k + 1).drop_last() =~= all.take(k as int));
        assert(all.take(k + 1).last() == e);
        if known == 1 {
            out.push(e);
        }
        k += 1;
    }
    out
}

proof fn lemma_occurrences_bound(edges: Seq<(usize, usize)>, e: (usize, usize))
    ensures
        occurrences(edges, e) <= edges.len(),
    decreases edges.len(),
{
    if edges.len() > 0 {
        lemma_occurrences_bound(edges.drop_last(), e);
    }
}

/// An edge belongs to the border if and only if one triangle has it and no
/// other.
pub proof fn law_border_edges_occur_once(triangles: Seq<[usize; 3]>, e: (usize, usize))
    ensures
        border(triangles).contains(e) <==> occurrences(position_edges(triangles), e) == 1,
{
    let all = position_edges(triangles);
    lemma_single_edges(all, all, e);
    lemma_occurs(all, e);
}

proof fn lemma_single_edges(
    edges: Seq<(usize, usize)>,
    all: Seq<(usize, usize)>,
    e: (usize, usize),
)
    ensures
        single_edges(edges, all).contains(e) <==> edges.contains(e) && occurrences(all, e) == 1,
    decreases edges.len(),
{
    if edges.len() > 0 {
        let init = edges.drop_last();
        lemma_single_edges(init, all, e);
        let before = single_edges(init, all);
        let now = single_edges(edges, all);
        if before.contains(e) {
            assert(now[before.index_of(e)] == e);
        }
        if init.contains(e) {
            assert(edges[init.index_of(e)] == e);
        }
        if edges.contains(e) && e != edges.last() {
            assert(init[edges.index_of(e)] == e);
        }
        if now.contains(e) && e != edges.last() {
            assert(before[now.index_of(e)] == e);
        }
        if e == edges.last() {
            assert(edges[edges.len() - 1] == e);
            if occurrences(all, e) == 1 {
                assert(now[now.len() - 1] == e);
            } else if now.contains(e) {
                assert(before[now.index_of(e)] == e);
            }
        }
    }
}

proof fn lemma_occurs(edges: Seq<(usize, usize)>, e: (usize, usize))
    ensures
        occurrences(edges, e) > 0 <==> edges.contains(e),
    decreases edges.len(),
{
    if edges.len() > 0 {
        let init = edges.drop_last();
        lemma_occurs(init, e);
        if init.contains(e) {
            assert(edges[init.index_of(e)] == e);
        }
        if edges.contains(e) && e != edges.last() {
            assert(init[edges.index_of(e)] == e);
        }
        if e == edges.last() {
            assert(edges[edges.len() - 1] == e);
        }
    }
}

/// The number of points of all polylines.
pub open spec fn point_total(lengths: Seq<usize>) -> int
    decreases lengths.len(),
{
    if lengths.len() == 0 {
        0
    } else {
        point_total(lengths.drop_last()) + lengths.last()
    }
}

/// The lines between neighbouring points of a polyline whose points start at
/// number `from`.
pub open spec fn polyline_segments(from: int, length: int) -> Seq<u32> {
    Seq::new(
        (if length > 1 {
            2 * (length - 1)
        } else {
            0
        }) as nat,
        |i: int| (from + i / 2 + i % 2) as u32,
    )
}

pub open spec fn polyline_lines(lengths: Seq<usize>) -> Seq<u32>
    decreases lengths.len(),
{
    if lengths.len() == 0 {
        Seq::empty()
    } else {
        let init = lengths.drop_last();
        polyline_lines(init) + polyline_segments(point_total(init), lengths.last() as int)
    }
}

proof fn lemma_point_total_grows(lengths: Seq<usize>, n: int)
    requires
        0 <= n <= lengths.len(),
    ensures
        0 <= point_total(lengths.take(n)) <= point_total(lengths),
    decreases lengths.len(),
{
    if n < lengths.len() {
        lemma_point_total_grows(lengths.drop_last(), n);
        assert(lengths.drop_last().take(n) =~= lengths.take(n));
    } else {
        assert(lengths.take(n) =~= lengths);
        if n > 0 {
            lemma_point_total_grows(lengths.drop_last(), n - 1);
            assert(lengths.drop_last().take(n - 1) =~= lengths.drop_last());
        }
    }
}

/// The list of lines of polylines with the given numbers of points, whose
/// points are numbered through.
pub fn polyline_line_indices(lengths: &[usize]) -> (r: Vec<u32>)
    requires
        point_total(lengths@) <= u32::MAX,
    ensures
        r@ == polyline_lines(lengths@),
{
    let mut out: Vec<u32> = Vec::new();
    let mut offset: u32 = 0;
    let mut i: usize = 0;
    while i < lengths.len()
        invariant
            i <= lengths.len(),
            point_total(lengths@) <= u32::MAX,
            offset == point_total(lengths@.take(i as int)),
            out@ == polyline_lines(lengths@.take(i as int)),
        decreases lengths.len() - i,
    {
        let length: usize = lengths[i];
        let ghost before = out@;
        let ghost longer = lengths@.take(i + 1);
        proof {
            assert(longer.drop_last() =~= lengths@.take(i as int));
            lemma_point_total_grows(lengths@, i + 1);
        }
        let count: u32 = length as u32;
        let mut k: u32 = 0;
        let ghost segments = polyline_segments(offset as int, length as int);
        assert(before + segments.take(0) =~= before);
        while count > 0 && k < count - 1
            invariant
                k == 0 || k < count,
                count == length,
                offset + length <= u32::MAX,
                segments == polyline_segments(offset as int, length as int),
                out@ == before + segments.take(2 * k),
            decreases count - k,
        {
            out.push(offset + k);
            out.push(offset + k + 1);
            assert(segments[2 * k] == offset + k);
            assert(segments[2 * k + 1] == offset + k + 1);
            k += 1;
            assert(out@ =~= before + segments.take(2 * k));
        }
        assert(segments.take(segments.len() as int) =~= segments);
        offset = offset + count;
        i += 1;
    }
    assert(lengths@.take(lengths.len() as int) =~= lengths@);
    out
}

} // verus!
