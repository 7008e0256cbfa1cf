//! What is drawn of meshes, curves and selections, told on what it is drawn
//! from.

use vstd::prelude::*;

use crate::lines;
use crate::order;
use crate::records::{FaceFacts, Facts, Selection, ShellFacts};
use crate::selection;
use crate::selection::{DrawnEdge, EdgeNumbers};

verus! {

// Lines along the edges of triangles.

/// A line of the list joins the two vertices, in one direction or the other.
pub open spec fn line_joins(list: Seq<u32>, i: int, a: u32, b: u32) -> bool {
    &&& 0 <= i
    &&& 2 * i + 1 < list.len()
    &&& (list[2 * i] == a && list[2 * i + 1] == b) || (list[2 * i] == b && list[2 * i + 1] == a)
}

/// A whole triangle has the two vertices at two of its corners.
pub open spec fn triangle_joins(indices: Seq<u32>, t: int, j: int, k: int, a: u32, b: u32) -> bool {
    &&& 0 <= t
    &&& 3 * t + 2 < indices.len()
    &&& 0 <= j < 3
    &&& 0 <= k < 3
    &&& j != k
    &&& indices[3 * t + j] == a
    &&& indices[3 * t + k] == b
}

proof fn lemma_edge_at(indices: Seq<u32>, t: int, j: int)
    requires
        0 <= t,
        3 * t + 2 < indices.len(),
        0 <= j < 3,
    ensures
        3 * t + j < lines::triangle_edges(indices).len(),
        lines::triangle_edges(indices)[3 * t + j] == lines::edge(
            indices[3 * t + j],
            indices[3 * t + (if j == 2 {
                0
            } else {
                j + 1
            })],
        ),
{
    let e = 3 * t + j;
    assert(e / 3 == t && e % 3 == j);
    assert(indices.len() / 3 * 3 >= 3 * t + 3);
}

/// A line is drawn between two vertices exactly where a triangle has both of
/// them as corners.
pub proof fn law_lines_join_corners(indices: Seq<u32>, a: u32, b: u32)
    ensures
        ({
            let list = lines::edge_ends(order::distinct(lines::triangle_edges(indices)));
            (exists|i: int| #[trigger] line_joins(list, i, a, b)) <==> exists|
                t: int,
                j: int,
                k: int,
            | #[trigger]
                triangle_joins(indices, t, j, k, a, b)
        }),
{
    let all = lines::triangle_edges(indices);
    let edges = order::distinct(all);
    let list = lines::edge_ends(edges);
    order::lemma_distinct(all);
    if exists|i: int| #[trigger] line_joins(list, i, a, b) {
        let i = choose|i: int| #[trigger] line_joins(list, i, a, b);
        assert(list[2 * i] == edges[i].0 && list[2 * i + 1] == edges[i].1);
        assert(edges.contains(edges[i]));
        let e = all.index_of(edges[i]);
        assert(all[e] == edges[i]);
        let t = e / 3;
        let j = e % 3;
        let k = if j == 2 {
            0
        } else {
            j + 1
        };
        assert(e == 3 * t + j);
        assert(e < indices.len() / 3 * 3);
        assert(3 * t + 2 < indices.len());
        lemma_edge_at(indices, t, j);
        if indices[3 * t + j] == a && indices[3 * t + k] == b {
            assert(triangle_joins(indices, t, j, k, a, b));
        } else {
            assert(triangle_joins(indices, t, k, j, a, b));
        }
    }
    if exists|t: int, j: int, k: int| #[trigger] triangle_joins(indices, t, j, k, a, b) {
        let (t, j, k) = choose|t: int, j: int, k: int| #[trigger]
            triangle_joins(indices, t, j, k, a, b);
        let first = if k == j + 1 || (j == 2 && k == 0) {
            j
        } else {
            k
        };
        lemma_edge_at(indices, t, first);
        let e = all[3 * t + first];
        assert(all.contains(e));
        assert(edges.contains(e));
        let i = edges.index_of(e);
        assert(list[2 * i] == edges[i].0 && list[2 * i + 1] == edges[i].1);
        assert(line_joins(list, i, a, b));
    }
}

/// No two vertices are joined by two lines.
pub proof fn law_lines_are_drawn_once(indices: Seq<u32>, i: int, k: int, a: u32, b: u32)
    requires
        line_joins(
            lines::edge_ends(order::distinct(lines::triangle_edges(indices))),
            i,
            a,
            b,
        ),
        line_joins(
            lines::edge_ends(order::distinct(lines::triangle_edges(indices))),
            k,
            a,
            b,
        ),
    ensures
        i == k,
{
    let all = lines::triangle_edges(indices);
    let edges = order::distinct(all);
    let list = lines::edge_ends(edges);
    order::lemma_distinct(all);
    assert(list[2 * i] == edges[i].0 && list[2 * i + 1] == edges[i].1);
    assert(list[2 * k] == edges[k].0 && list[2 * k + 1] == edges[k].1);
    assert forall|n: int| 0 <= n < edges.len() implies (#[trigger] edges[n]).0 <= edges[n].1 by {
        assert(edges.contains(edges[n]));
        let e = all.index_of(edges[n]);
        assert(all[e] == edges[n]);
    }
    assert(edges[i].0 <= edges[i].1 && edges[k].0 <= edges[k].1);
    assert(edges[i] == edges[k]);
}

// Polylines.

/// The number of points of the first polylines.
pub open spec fn points_before(lengths: Seq<usize>, n: int) -> int
    decreases n,
{
    if n <= 0 {
        0
    } else {
        points_before(lengths, n - 1) + lengths[n - 1]
    }
}

/// The number of line ends of the first polylines: two for each point but the
/// last.
pub open spec fn ends_before(lengths: Seq<usize>, n: int) -> int
    decreases n,
{
    if n <= 0 {
        0
    } else {
        ends_before(lengths, n - 1) + (if lengths[n - 1] > 0 {
            2 * (lengths[n - 1] - 1)
        } else {
            0
        })
    }
}

proof fn lemma_points_of_fewer(lengths: Seq<usize>, n: int)
    requires
        0 <= n < lengths.len(),
    ensures
        points_before(lengths.drop_last(), n) == points_before(lengths, n),
        ends_before(lengths.drop_last(), n) == ends_before(lengths, n),
        points_before(lengths, n) >= 0,
        ends_before(lengths, n) >= 0,
    decreases n,
{
    if n > 0 {
        lemma_points_of_fewer(lengths, n - 1);
    }
}

proof fn lemma_polyline_total(lengths: Seq<usize>)
    ensures
        lines::point_total(lengths) == points_before(lengths, lengths.len() as int),
        lines::polyline_lines(lengths).len() == ends_before(lengths, lengths.len() as int),
    decreases lengths.len(),
{
    if lengths.len() > 0 {
        lemma_polyline_total(lengths.drop_last());
        lemma_points_of_fewer(lengths, lengths.len() - 1);
    }
}

/// Each polyline is drawn from each of its points to the next, and no line goes
/// from one polyline to another.
pub proof fn law_polylines_join_neighbours(lengths: Seq<usize>, l: int, k: int)
    requires
        0 <= l < lengths.len(),
        0 <= k < lengths[l] - 1,
        points_before(lengths, lengths.len() as int) <= u32::MAX,
    ensures
        lines::polyline_lines(lengths).len() == ends_before(lengths, lengths.len() as int),
        ({
            let at = ends_before(lengths, l) + 2 * k;
            &&& 0 <= at && at + 1 < lines::polyline_lines(lengths).len()
            &&& lines::polyline_lines(lengths)[at] == points_before(lengths, l) + k
            &&& lines::polyline_lines(lengths)[at + 1] == points_before(lengths, l) + k + 1
        }),
    decreases lengths.len(),
{
    let init = lengths.drop_last();
    let last = lengths.len() - 1;
    lemma_polyline_total(lengths);
    lemma_polyline_total(init);
    lemma_points_of_fewer(lengths, last);
    lemma_points_of_fewer(lengths, l);
    if l < last {
        assert(init[l] == lengths[l]);
        law_polylines_join_neighbours(init, l, k);
    } else {
        let from = lines::point_total(init);
        let segments = lines::polyline_segments(from, lengths.last() as int);
        assert(segments[2 * k] == from + k);
        assert(segments[2 * k + 1] == from + k + 1);
    }
}

// Edges of the model.

/// The number of edges of the first shells.
pub open spec fn edges_before(shells: Seq<EdgeNumbers>, n: int) -> int
    decreases n,
{
    if n <= 0 {
        0
    } else {
        edges_before(shells, n - 1) + shells[n - 1].edges.len()
    }
}

/// The first record of the shell decides whether it is seen; one without a
/// record is.
pub open spec fn shell_is_seen<C>(facts: Facts<C>, id: usize) -> bool {
    forall|i: int|
        0 <= i < facts.shells.len() && (#[trigger] facts.shells[i]).id == id && (forall|k: int|
            0 <= k < i ==> (#[trigger] facts.shells[k]).id != id) ==> facts.shells[i].visible
}

proof fn lemma_shell_seen<C>(facts: Facts<C>, id: usize)
    ensures
        facts.shell_visible(id) == shell_is_seen(facts, id),
{
    let fits = |s: ShellFacts| s.id == id;
    order::lemma_first_where(facts.shells, fits);
    let at = facts.shell_at(id);
    if at < facts.shells.len() {
        assert(facts.shells[at].id == id);
        assert forall|k: int| 0 <= k < at implies (#[trigger] facts.shells[k]).id != id by {
            assert(!fits(facts.shells[k]));
        }
        assert forall|i: int|
            0 <= i < facts.shells.len() && (#[trigger] facts.shells[i]).id == id && (forall|k: int|
                0 <= k < i ==> (#[trigger] facts.shells[k]).id != id) implies i == at by {
            if i < at {
                assert(!fits(facts.shells[i]));
            }
            if at < i {
                assert(facts.shells[at].id != id);
            }
        }
    } else {
        assert forall|i: int| 0 <= i < facts.shells.len() implies (#[trigger] facts.shells[i]).id
            != id by {
            assert(!fits(facts.shells[i]));
        }
    }
}

proof fn lemma_edge_offset(shells: Seq<EdgeNumbers>)
    ensures
        selection::edge_offset(shells) == edges_before(shells, shells.len() as int),
    decreases shells.len(),
{
    if shells.len() > 0 {
        lemma_edge_offset(shells.drop_last());
        lemma_edges_of_fewer(shells, shells.len() - 1);
    }
}

proof fn lemma_edges_of_fewer(shells: Seq<EdgeNumbers>, n: int)
    requires
        0 <= n < shells.len(),
    ensures
        edges_before(shells.drop_last(), n) == edges_before(shells, n),
    decreases n,
{
    if n > 0 {
        lemma_edges_of_fewer(shells, n - 1);
    }
}

/// The edge of a shell is drawn: its record and that of its shell are seen.
pub open spec fn edge_is_drawn<C>(
    facts: Facts<C>,
    highlighted: Seq<usize>,
    shells: Seq<EdgeNumbers>,
    d: DrawnEdge,
) -> bool {
    &&& d.shell < shells.len()
    &&& d.edge < shells[d.shell as int].edges.len()
    &&& shell_is_seen(facts, shells[d.shell as int].id)
    &&& {
        let id = edges_before(shells, d.shell as int) + shells[d.shell as int].edges[d.edge as int];
        &&& 0 <= id < facts.edges.len() ==> facts.edges[id].visible
        &&& d.highlighted == highlighted.contains(id as usize)
    }
}

proof fn lemma_drawn_of_shell<C>(
    facts: Facts<C>,
    highlighted: Seq<usize>,
    edges: Seq<usize>,
    shell: int,
    offset: int,
    d: DrawnEdge,
)
    requires
        0 <= shell <= usize::MAX,
        edges.len() <= usize::MAX,
    ensures
        selection::drawn_of_shell(facts, highlighted, edges, shell, offset).contains(d) <==> {
            &&& d.shell == shell
            &&& d.edge < edges.len()
            &&& {
                let id = offset + edges[d.edge as int];
                &&& 0 <= id < facts.edges.len() ==> facts.edges[id].visible
                &&& d.highlighted == highlighted.contains(id as usize)
            }
        },
    decreases edges.len(),
{
    if edges.len() > 0 {
        let init = edges.drop_last();
        lemma_drawn_of_shell(facts, highlighted, init, shell, offset, d);
        let before = selection::drawn_of_shell(facts, highlighted, init, shell, offset);
        let now = selection::drawn_of_shell(facts, highlighted, edges, shell, offset);
        if before.contains(d) {
            assert(now[before.index_of(d)] == d);
        }
        if now.contains(d) && !before.contains(d) {
            let k = now.index_of(d);
            assert(k >= before.len() || before[k] == d);
            assert(now[now.len() - 1] == d);
        }
        if d.edge < init.len() {
            assert(init[d.edge as int] == edges[d.edge as int]);
        }
        if now.len() > before.len() && d == now[now.len() - 1] {
            assert(now.contains(d));
        }
    }
}

proof fn lemma_drawn<C>(
    facts: Facts<C>,
    highlighted: Seq<usize>,
    shells: Seq<EdgeNumbers>,
    d: DrawnEdge,
)
    requires
        shells.len() <= usize::MAX,
        forall|s: int| 0 <= s < shells.len() ==> (#[trigger] shells[s]).edges.len() <= usize::MAX,
    ensures
        selection::drawn_edges(facts, highlighted, shells).contains(d) <==> edge_is_drawn(
            facts,
            highlighted,
            shells,
            d,
        ),
    decreases shells.len(),
{
    if shells.len() > 0 {
        let init = shells.drop_last();
        let last = shells.len() - 1;
        lemma_drawn(facts, highlighted, init, d);
        lemma_edge_offset(init);
        lemma_edges_of_fewer(shells, last);
        lemma_shell_seen(facts, shells.last().id);
        let offset = selection::edge_offset(init);
        let before = selection::drawn_edges(facts, highlighted, init);
        let own = selection::drawn_of_shell(
            facts,
            highlighted,
            shells.last().edges,
            last,
            offset,
        );
        let now = selection::drawn_edges(facts, highlighted, shells);
        assert(shells[last].edges.len() <= usize::MAX);
        lemma_drawn_of_shell(facts, highlighted, shells.last().edges, last, offset, d);
        if before.contains(d) {
            assert(now[before.index_of(d)] == d);
        }
        if facts.shell_visible(shells.last().id) {
            if own.contains(d) {
                assert(now[before.len() + own.index_of(d)] == d);
            }
            if now.contains(d) {
                let k = now.index_of(d);
                if k < before.len() {
                    assert(before[k] == d);
                } else {
                    assert(own[k - before.len()] == d);
                }
            }
        }
        if d.shell < init.len() {
            lemma_edges_of_fewer(shells, d.shell as int);
            assert(init[d.shell as int] == shells[d.shell as int]);
        }
    }
}

/// An edge is drawn exactly where it and its shell are seen, and highlighted
/// exactly where its number, counted over the shells before, is among those to
/// highlight.
pub proof fn law_seen_edges_are_drawn<C>(
    facts: Facts<C>,
    highlighted: Seq<usize>,
    shells: Seq<EdgeNumbers>,
    d: DrawnEdge,
)
    requires
        shells.len() <= usize::MAX,
        forall|s: int| 0 <= s < shells.len() ==> (#[trigger] shells[s]).edges.len() <= usize::MAX,
    ensures
        selection::drawn_edges(facts, highlighted, shells).contains(d) <==> edge_is_drawn(
            facts,
            highlighted,
            shells,
            d,
        ),
{
    lemma_drawn(facts, highlighted, shells, d);
}

// What a selection stands for.

/// Where records are numbered by their place, a selected face stands for itself,
/// a selected loop for its face, and a selected edge for the first face that it
/// bounds; a shell stands for none.
pub proof fn law_selection_stands_for_face<C>(facts: Facts<C>, id: usize)
    requires
        facts.numbered(),
    ensures
        facts.selected_face(Some(Selection::Face(id))) == Some(id as int),
        id < facts.loops.len() ==> facts.selected_face(Some(Selection::Loop(id))) == Some(
            facts.loops[id as int].face_id,
        ),
        id >= facts.loops.len() ==> facts.selected_face(Some(Selection::Loop(id))) is None,
        facts.selected_face(Some(Selection::Shell(id))) is None,
        facts.selected_face(None) is None,
        forall|f: int|
            facts.selected_face(Some(Selection::Edge(id))) == Some(f) <==> 0 <= f
                < facts.faces.len() && (#[trigger] facts.faces[f]).edge_ids.contains(id)
                && forall|k: int| 0 <= k < f ==> !(#[trigger] facts.faces[k]).edge_ids.contains(id),
{
    selection::law_numbered_lookup(facts, id as int);
    let fits = |f: FaceFacts<C>| f.edge_ids.contains(id);
    order::lemma_first_where(facts.faces, fits);
    let at = facts.face_with_edge(id);
    assert forall|f: int|
        facts.selected_face(Some(Selection::Edge(id))) == Some(f) <==> 0 <= f < facts.faces.len()
            && (#[trigger] facts.faces[f]).edge_ids.contains(id) && forall|k: int|
            0 <= k < f ==> !(#[trigger] facts.faces[k]).edge_ids.contains(id) by {
        if 0 <= f < facts.faces.len() && facts.faces[f].edge_ids.contains(id) && (forall|k: int|
            0 <= k < f ==> !(#[trigger] facts.faces[k]).edge_ids.contains(id)) {
            if f < at {
                assert(!fits(facts.faces[f]));
            }
            if at < f {
                assert(fits(facts.faces[at]));
                assert(!facts.faces[at].edge_ids.contains(id));
            }
            assert(facts.faces[at].id == at);
        }
        if facts.selected_face(Some(Selection::Edge(id))) == Some(f) {
            assert(facts.faces[at].id == at);
            assert(fits(facts.faces[at]));
            assert forall|k: int| 0 <= k < f implies !(#[trigger] facts.faces[k]).edge_ids.contains(
                id,
            ) by {
                assert(!fits(facts.faces[k]));
            }
        }
    }
}

/// Where records are numbered by their place, a selected edge highlights
/// itself, a loop its own edges and a face its own; nothing else is.
pub proof fn law_selection_highlights_its_edges<C>(facts: Facts<C>, id: usize)
    requires
        facts.numbered(),
    ensures
        facts.highlighted_edges(Some(Selection::Edge(id))) == seq![id],
        id < facts.loops.len() ==> facts.highlighted_edges(Some(Selection::Loop(id)))
            == facts.loops[id as int].edge_ids,
        id < facts.faces.len() ==> facts.highlighted_edges(Some(Selection::Face(id)))
            == facts.faces[id as int].edge_ids,
        facts.highlighted_edges(Some(Selection::Shell(id))).len() == 0,
        facts.highlighted_edges(None).len() == 0,
{
    selection::law_numbered_lookup(facts, id as int);
}

/// The first record of a shell tells whether it is seen, and a shell without one
/// is seen. So is an edge without a record.
pub proof fn law_records_hide_shells_and_edges<C>(facts: Facts<C>, id: usize, at: int, edge: int)
    requires
        0 <= at <= facts.shells.len(),
        forall|i: int| 0 <= i < at ==> (#[trigger] facts.shells[i]).id != id,
        at < facts.shells.len() ==> facts.shells[at].id == id,
    ensures
        at < facts.shells.len() ==> facts.shell_visible(id) == facts.shells[at].visible,
        at == facts.shells.len() ==> facts.shell_visible(id),
        0 <= edge < facts.edges.len() ==> facts.edge_visible(edge) == facts.edges[edge].visible,
        edge < 0 || edge >= facts.edges.len() ==> facts.edge_visible(edge),
{
    order::lemma_first_where_is(facts.shells, |s: ShellFacts| s.id == id, at);
}

/// The annotation of a face can be read back from its state.
pub proof fn law_annotations_read_back<C>(
    facts: Facts<C>,
    selection: Option<Selection>,
    hover: Option<Selection>,
    i: int,
)
    requires
        0 <= i < facts.faces.len(),
        facts.faces[i].annotation < 0x2000_0000,
    ensures
        facts.face_bits(selection, hover, i) >> 3u32 == facts.faces[i].annotation,
        facts.face_states(selection, hover).len() == facts.faces.len(),
        facts.face_states(selection, hover)[i] == facts.face_bits(selection, hover, i),
{
    let a = facts.faces[i].annotation;
    let h: u32 = if facts.faces[i].visible && facts.shell_visible(facts.faces[i].shell_id) {
        0
    } else {
        4
    };
    let s: u32 = if facts.selected_face(selection) == Some(i) {
        1
    } else {
        0
    };
    let o: u32 = if facts.selected_face(hover) == Some(i) {
        2
    } else {
        0
    };
    assert(((((a << 3u32) | h) | s) | o) >> 3u32 == a) by (bit_vector)
        requires
            a < 0x2000_0000,
            h == 0 || h == 4,
            s == 0 || s == 1,
            o == 0 || o == 2,
    ;
}

} // verus!
