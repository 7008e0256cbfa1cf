//! What holds of boundaries that are made up of edges, and of their knots.

use vstd::prelude::*;

use crate::trim_pieces;
use crate::trim_pieces::Run;

verus! {

/// How many steps the first edges have: one fewer than points each.
pub open spec fn steps_before<P>(edges: Seq<Seq<P>>, e: int) -> int
    decreases e,
{
    if e <= 0 {
        0
    } else {
        steps_before(edges, e - 1) + edges[e - 1].len() - 1
    }
}

/// Each edge has a point, and starts where its forerunner ends.
pub open spec fn is_row<P>(edges: Seq<Seq<P>>) -> bool {
    &&& forall|e: int| 0 <= e < edges.len() ==> (#[trigger] edges[e]).len() > 0
    &&& forall|e: int|
        0 < e < edges.len() ==> (#[trigger] edges[e])[0] == edges[e - 1][edges[e - 1].len() - 1]
}

proof fn lemma_steps_of_part<P>(edges: Seq<Seq<P>>, n: int, e: int)
    requires
        0 <= e <= n <= edges.len(),
    ensures
        steps_before(edges.take(n), e) == steps_before(edges, e),
    decreases e,
{
    if e > 0 {
        lemma_steps_of_part(edges, n, e - 1);
        assert(edges.take(n)[e - 1] == edges[e - 1]);
    }
}

proof fn lemma_steps_grow<P>(edges: Seq<Seq<P>>, d: int, e: int)
    requires
        0 <= d <= e <= edges.len(),
        is_row(edges),
    ensures
        0 <= steps_before(edges, d) <= steps_before(edges, e),
        d < e ==> steps_before(edges, d) + edges[d].len() - 1 <= steps_before(edges, e),
    decreases e,
{
    if d < e {
        assert(edges[e - 1].len() > 0);
        lemma_steps_grow(edges, d, e - 1);
    } else if e > 0 {
        assert(edges[e - 1].len() > 0);
        lemma_steps_grow(edges, e - 1, e - 1);
    }
}

/// A row of edges, each of which starts where the one before it ends, becomes
/// one line that goes along every edge in turn, and has each shared point once.
pub proof fn law_row_of_edges_is_one_line<P>(edges: Seq<Seq<P>>, e: int, k: int)
    requires
        is_row(edges),
        0 <= e < edges.len(),
        0 <= k < edges[e].len(),
    ensures
        trim_pieces::chained(edges).len() == steps_before(edges, edges.len() as int) + 1,
        0 <= steps_before(edges, e) + k < trim_pieces::chained(edges).len(),
        trim_pieces::chained(edges)[steps_before(edges, e) + k] == edges[e][k],
    decreases edges.len(),
{
    let n = edges.len() as int;
    let fewer = edges.drop_last();
    assert(edges[n - 1].len() > 0);
    assert(fewer =~= edges.take(n - 1));
    lemma_steps_of_part(edges, n - 1, n - 1);
    lemma_steps_grow(edges, e, n);
    lemma_steps_grow(edges, e, n - 1 + (if e == n - 1 { 1int } else { 0 }));
    assert(forall|i: int| 0 <= i < n - 1 ==> fewer[i] == edges[i]);
    if n > 1 {
        assert(is_row(fewer)) by {
            assert forall|i: int| 0 <= i < fewer.len() implies (#[trigger] fewer[i]).len() > 0 by {
                assert(edges[i].len() > 0);
            }
            assert forall|i: int| 0 < i < fewer.len() implies (#[trigger] fewer[i])[0] == fewer[i
                - 1][fewer[i - 1].len() - 1] by {
                assert(edges[i][0] == edges[i - 1][edges[i - 1].len() - 1]);
            }
        }
        assert(edges[n - 2].len() > 0);
        law_row_of_edges_is_one_line(fewer, n - 2, edges[n - 2].len() - 1);
        lemma_steps_of_part(edges, n - 1, n - 2);
        let before = trim_pieces::chained(fewer);
        assert(steps_before(edges, n - 1) == steps_before(edges, n - 2) + edges[n - 2].len() - 1);
        assert(before.len() == steps_before(edges, n - 1) + 1);
        assert(before[before.len() - 1] == edges[n - 2][edges[n - 2].len() - 1]);
        assert(trim_pieces::chained(edges) == before + edges[n - 1].skip(1));
        if e < n - 1 {
            law_row_of_edges_is_one_line(fewer, e, k);
            lemma_steps_of_part(edges, n - 1, e);
        } else if k > 0 {
            assert((before + edges[n - 1].skip(1))[before.len() + k - 1] == edges[n - 1].skip(1)[k
                - 1]);
        } else {
            assert(edges[n - 1][0] == edges[n - 2][edges[n - 2].len() - 1]);
        }
    } else {
        assert(trim_pieces::chained(fewer) =~= Seq::empty());
        assert(trim_pieces::chained(edges) =~= edges[0]);
        assert(steps_before(edges, 0) == 0);
        assert(steps_before(edges, 1) == edges[0].len() - 1);
    }
}

/// A closed row of edges becomes a ring that goes along every edge in turn, and
/// has each shared point once, as the first of the edge behind it.
pub proof fn law_closed_row_is_a_ring<P>(edges: Seq<Seq<P>>, e: int, k: int)
    requires
        is_row(edges),
        0 <= e < edges.len(),
        0 <= k < edges[e].len() - 1,
    ensures
        trim_pieces::without_ends(edges).len() == steps_before(edges, edges.len() as int),
        0 <= steps_before(edges, e) + k < trim_pieces::without_ends(edges).len(),
        trim_pieces::without_ends(edges)[steps_before(edges, e) + k] == edges[e][k],
    decreases edges.len(),
{
    let n = edges.len() as int;
    lemma_ring_length(edges);
    lemma_steps_grow(edges, e, n);
    let fewer = edges.drop_last();
    assert(edges[n - 1].len() > 0);
    assert(fewer =~= edges.take(n - 1));
    lemma_row_part(edges);
    lemma_ring_length(fewer);
    lemma_steps_of_part(edges, n - 1, n - 1);
    let before = trim_pieces::without_ends(fewer);
    if e < n - 1 {
        assert(fewer[e] == edges[e]);
        law_closed_row_is_a_ring(fewer, e, k);
        lemma_steps_of_part(edges, n - 1, e);
    } else {
        assert((before + edges[n - 1].drop_last())[before.len() + k] == edges[n - 1][k]);
    }
}

proof fn lemma_row_part<P>(edges: Seq<Seq<P>>)
    requires
        is_row(edges),
        edges.len() > 0,
    ensures
        is_row(edges.drop_last()),
{
    let fewer = edges.drop_last();
    assert forall|i: int| 0 <= i < fewer.len() implies (#[trigger] fewer[i]).len() > 0 by {
        assert(edges[i].len() > 0);
    }
    assert forall|i: int| 0 < i < fewer.len() implies (#[trigger] fewer[i])[0] == fewer[i
        - 1][fewer[i - 1].len() - 1] by {
        assert(edges[i][0] == edges[i - 1][edges[i - 1].len() - 1]);
    }
}

proof fn lemma_ring_length<P>(edges: Seq<Seq<P>>)
    requires
        is_row(edges),
    ensures
        trim_pieces::without_ends(edges).len() == steps_before(edges, edges.len() as int),
    decreases edges.len(),
{
    if edges.len() > 0 {
        let n = edges.len() as int;
        assert(edges[n - 1].len() > 0);
        assert(edges.drop_last() =~= edges.take(n - 1));
        lemma_row_part(edges);
        lemma_ring_length(edges.drop_last());
        lemma_steps_of_part(edges, n - 1, n - 1);
    }
}

/// The knots of an arc never fall. The first three are none and the last three
/// all of the parts, and the end of each inner part is there twice.
pub proof fn law_arc_has_double_knots(segments: int, part: int, i: int)
    requires
        0 < part < segments,
        0 <= i < 2 * segments + 3,
    ensures
        trim_pieces::arc_knot(segments, 0) == 0,
        trim_pieces::arc_knot(segments, 1) == 0,
        trim_pieces::arc_knot(segments, 2) == 0,
        trim_pieces::arc_knot(segments, 2 * segments + 1) == segments,
        trim_pieces::arc_knot(segments, 2 * segments + 2) == segments,
        trim_pieces::arc_knot(segments, 2 * segments + 3) == segments,
        trim_pieces::arc_knot(segments, 2 * part + 1) == part,
        trim_pieces::arc_knot(segments, 2 * part + 2) == part,
        trim_pieces::arc_knot(segments, i) <= trim_pieces::arc_knot(segments, i + 1),
{
}

/// The way back starts at the side of the range to which the piece runs, and
/// goes along the first axis along which it runs. It lies to the left of the
/// piece.
pub proof fn law_way_back_starts_where_piece_ends(along_u: Run, along_v: Run)
    ensures
        trim_pieces::closure_for(along_u, along_v) matches Some(c) ==> {
            &&& c.axis == 0 <==> along_u != Run::Level
            &&& along_u != Run::Level ==> (c.after_end.at_upper_u <==> along_u == Run::Ahead) && (
            c.after_end.at_upper_v <==> along_u == Run::Ahead)
            &&& along_u == Run::Level ==> (c.after_end.at_upper_v <==> along_v == Run::Ahead) && (
            c.after_end.at_upper_u <==> along_v == Run::Back)
        },
        trim_pieces::closure_for(along_u, along_v) is Some <==> along_u != Run::Level || along_v
            != Run::Level,
{
}

} // verus!
