//! Boundaries of a face on their way to closed trim loops.
//!
//! `F` is a real number and `P` a point of the parameter plane. Whether two
//! points are close, and which straight curve joins them, is known outside.

use vstd::prelude::*;

use crate::order::reversed;
use crate::trim_loops::{NsiBrepTrimCurveData, TrimLoop};

verus! {

/// Where the curve of an edge comes from.
#[derive(Clone, Copy, Debug, PartialEq, Eq, Structural)]
pub enum TrimCurveSource {
    Exact,
    SampledFallback,
}

/// The curve of one edge of a boundary.
pub struct TrimEdgeCurve<F, P> {
    pub curve: NsiBrepTrimCurveData<F>,
    pub topology_points: Vec<P>,
    pub source: TrimCurveSource,
}

/// A boundary that may not be closed yet.
pub struct TrimPiece<F, P> {
    pub curves: Vec<NsiBrepTrimCurveData<F>>,
    pub topology_points: Vec<P>,
    /// Whether its first point was put behind its last.
    pub closed_by_topology: bool,
    pub sampled_fallback_count: usize,
}

/// The points of the edges one behind the other. What an edge starts with, its
/// forerunner has ended with.
pub open spec fn chained<P>(edges: Seq<Seq<P>>) -> Seq<P>
    decreases edges.len(),
{
    if edges.len() == 0 {
        Seq::empty()
    } else {
        let before = chained(edges.drop_last());
        let last = edges.last();
        if before.len() > 0 && last.len() > 0 {
            before + last.skip(1)
        } else {
            before + last
        }
    }
}

pub open spec fn edge_points<F, P>(entries: Seq<TrimEdgeCurve<F, P>>) -> Seq<Seq<P>> {
    entries.map_values(|e: TrimEdgeCurve<F, P>| e.topology_points@)
}

pub open spec fn edge_curves<F, P>(entries: Seq<TrimEdgeCurve<F, P>>) -> Seq<
    NsiBrepTrimCurveData<F>,
> {
    entries.map_values(|e: TrimEdgeCurve<F, P>| e.curve)
}

/// How many edges had to be sampled.
pub open spec fn sampled<F, P>(entries: Seq<TrimEdgeCurve<F, P>>) -> nat
    decreases entries.len(),
{
    if entries.len() == 0 {
        0
    } else {
        sampled(entries.drop_last()) + if entries.last().source
            == TrimCurveSource::SampledFallback {
            1nat
        } else {
            0
        }
    }
}

fn push_from<P: Copy>(out: &mut Vec<P>, part: &[P], from: usize, to: usize)
    requires
        from <= to <= part@.len(),
    ensures
        final(out)@ == old(out)@ + part@.subrange(from as int, to as int),
{
    let ghost start = out@;
    let mut i: usize = from;
    assert(start + part@.subrange(from as int, from as int) =~= start);
    while i < to
        invariant
            from <= i <= to <= part@.len(),
            out@ == start + part@.subrange(from as int, i as int),
        decreases to - i,
    {
        out.push(part[i]);
        assert(out@ =~= start + part@.subrange(from as int, i + 1));
        i += 1;
    }
}

/// The points of a boundary, edge after edge, without what an edge repeats of
/// its forerunner.
pub fn chain_edge_points<F, P: Copy>(entries: &[TrimEdgeCurve<F, P>]) -> (r: Vec<P>)
    ensures
        r@ == chained(edge_points(entries@)),
{
    let mut out: Vec<P> = Vec::new();
    let ghost all = edge_points(entries@);
    assert(all.take(0) =~= Seq::empty());
    let mut i: usize = 0;
    while i < entries.len()
        invariant
            i <= entries.len(),
            all == edge_points(entries@),
            out@ == chained(all.take(i as int)),
        decreases entries.len() - i,
    {
        let points = &entries[i].topology_points;
        let from: usize = if out.len() > 0 && points.len() > 0 {
            1
        } else {
            0
        };
        proof {
            assert(all.take(i + 1).drop_last() =~= all.take(i as int));
            assert(all.take(i + 1).last() == points@);
            assert(points@.subrange(0, points@.len() as int) =~= points@);
            if points@.len() > 0 {
                assert(points@.subrange(1, points@.len() as int) =~= points@.skip(1));
            }
        }
        push_from(&mut out, points.as_slice(), from, points.len());
        i += 1;
    }
    assert(all.take(entries.len() as int) =~= all);
    out
}

/// Points in a row, without those that are close to their forerunner.
pub struct PointChain<P> {
    pub points: Vec<P>,
}

impl<P: Copy> PointChain<P> {
    pub fn new() -> (r: Self)
        ensures
            r.points@ == Seq::<P>::empty(),
    {
        PointChain { points: Vec::new() }
    }

    /// The point that the next one is held against.
    pub fn last(&self) -> (r: Option<P>)
        ensures
            r == if self.points@.len() > 0 {
                Some(self.points@.last())
            } else {
                None
            },
    {
        if self.points.len() > 0 {
            Some(self.points[self.points.len() - 1])
        } else {
            None
        }
    }

    /// Takes the next point, unless it is close to the last one.
    pub fn offer(&mut self, point: P, is_near_last: bool)
        ensures
            final(self).points@ == if old(self).points@.len() == 0 || !is_near_last {
                old(self).points@.push(point)
            } else {
                old(self).points@
            },
    {
        if self.points.len() == 0 || !is_near_last {
            self.points.push(point);
        }
    }

    /// The points as a closed row, and whether the first had to be put behind
    /// the last for that: it is, where the two are not close.
    pub fn close(self, ends_are_near: bool) -> (r: Option<(Vec<P>, bool)>)
        ensures
            r is Some == (self.points@.len() > 0),
            match r {
                Some(closed) => {
                    &&& closed.1 == !ends_are_near
                    &&& closed.0@ == if ends_are_near {
                        self.points@
                    } else {
                        self.points@.push(self.points@[0])
                    }
                },
                None => true,
            },
    {
        let mut points = self.points;
        if points.len() == 0 {
            None
        } else {
            if !ends_are_near {
                let first = points[0];
                points.push(first);
            }
            Some((points, !ends_are_near))
        }
    }
}

/// The piece that the edges of a boundary make up, with the points that they
/// come to and whether these had to be closed.
pub fn trim_boundary_to_piece<F, P>(
    entries: Vec<TrimEdgeCurve<F, P>>,
    points: Vec<P>,
    closed_by_topology: bool,
) -> (r: TrimPiece<F, P>)
    ensures
        r.curves@ == edge_curves(entries@),
        r.topology_points == points,
        r.closed_by_topology == closed_by_topology,
        r.sampled_fallback_count == sampled(entries@),
{
    let ghost given = entries@;
    let mut rest = reversed(entries);
    let total: usize = rest.len();
    let mut curves: Vec<NsiBrepTrimCurveData<F>> = Vec::new();
    let mut count: usize = 0;
    assert(given.take(0) =~= Seq::empty());
    assert(edge_curves(given.take(0)) =~= Seq::empty());
    while rest.len() > 0
        invariant
            rest@ == given.reverse().take(rest@.len() as int),
            rest@.len() + curves@.len() == given.len(),
            given.len() == total,
            curves@ == edge_curves(given.take(curves@.len() as int)),
            count <= curves@.len(),
            count == sampled(given.take(curves@.len() as int)),
        decreases rest.len(),
    {
        let ghost at = curves@.len() as int;
        if let Some(entry) = rest.pop() {
            proof {
                assert(entry == given[at]);
                assert(given.take(at + 1).drop_last() =~= given.take(at));
                assert(given.take(at + 1).last() == entry);
            }
            if entry.source == TrimCurveSource::SampledFallback {
                count += 1;
            }
            curves.push(entry.curve);
            assert(curves@ =~= edge_curves(given.take(at + 1)));
        }
    }
    assert(given.take(given.len() as int) =~= given);
    TrimPiece { curves, topology_points: points, closed_by_topology, sampled_fallback_count: count }
}

/// All the parts, if none is missing.
pub fn all_or_none<T>(parts: Vec<Option<T>>) -> (r: Option<Vec<T>>)
    ensures
        r is Some == (forall|i: int| 0 <= i < parts@.len() ==> (#[trigger] parts@[i]) is Some),
        match r {
            Some(all) => {
                &&& all@.len() == parts@.len()
                &&& forall|i: int|
                    0 <= i < parts@.len() ==> parts@[i] == Some(#[trigger] all@[i])
            },
            None => true,
        },
{
    let ghost given = parts@;
    let mut rest = reversed(parts);
    let mut all: Vec<T> = Vec::new();
    while rest.len() > 0
        invariant
            rest@ == given.reverse().take(rest@.len() as int),
            rest@.len() + all@.len() == given.len(),
            given == parts@,
            forall|i: int| 0 <= i < all@.len() ==> given[i] == Some(#[trigger] all@[i]),
        decreases rest.len(),
    {
        let ghost at = all@.len() as int;
        if let Some(part) = rest.pop() {
            assert(part == given[at]);
            match part {
                Some(t) => {
                    all.push(t);
                },
                None => {
                    return None;
                },
            }
        }
    }
    assert forall|i: int| 0 <= i < given.len() implies (#[trigger] given[i]) is Some by {
        assert(given[i] == Some(all@[i]));
    }
    Some(all)
}

/// What the boundaries of a face come to.
pub enum TrimOutcome<L> {
    /// The face has no boundary.
    Untrimmed,
    Trimmed(Vec<L>),
    /// A boundary could not be read, or none closed: the face is left out.
    Incomplete,
}

/// What the boundaries of a face come to, given how many there were and the
/// loops that they closed to, if all of them could be read.
pub fn trim_outcome<L>(boundaries: usize, loops: Option<Vec<L>>) -> (r: TrimOutcome<L>)
    ensures
        r == match loops {
            None => TrimOutcome::Incomplete,
            Some(l) if boundaries == 0 => TrimOutcome::Untrimmed,
            Some(l) if l@.len() == 0 => TrimOutcome::Incomplete,
            Some(l) => TrimOutcome::Trimmed(l),
        },
{
    match loops {
        None => TrimOutcome::Incomplete,
        Some(l) => if boundaries == 0 {
            TrimOutcome::Untrimmed
        } else if l.len() == 0 {
            TrimOutcome::Incomplete
        } else {
            TrimOutcome::Trimmed(l)
        },
    }
}

/// The loop of a piece whose last point is its first: that point is dropped,
/// and the straight curve back to the start comes behind the others where the
/// piece had to be closed.
pub fn closed_piece<F, P>(piece: TrimPiece<F, P>, closing: NsiBrepTrimCurveData<F>) -> (r: TrimLoop<
    F,
    P,
>)
    requires
        piece.topology_points@.len() > 0,
    ensures
        r.topology_points@ == piece.topology_points@.drop_last(),
        r.curves@ == if piece.closed_by_topology && piece.topology_points@.len() > 1 {
            piece.curves@.push(closing)
        } else {
            piece.curves@
        },
        r.sampled_fallback_count == piece.sampled_fallback_count,
{
    let mut points = piece.topology_points;
    let mut curves = piece.curves;
    let _ = points.pop();
    if piece.closed_by_topology && points.len() > 0 {
        curves.push(closing);
    }
    TrimLoop {
        curves,
        topology_points: points,
        sampled_fallback_count: piece.sampled_fallback_count,
    }
}

/// The pieces with at least two points.
pub fn long_pieces<F, P>(pieces: Vec<TrimPiece<F, P>>) -> (r: Vec<TrimPiece<F, P>>)
    ensures
        r@ == pieces@.filter(|p: TrimPiece<F, P>| p.topology_points@.len() >= 2),
{
    let ghost given = pieces@;
    let ghost long = |p: TrimPiece<F, P>| p.topology_points@.len() >= 2;
    let mut rest = reversed(pieces);
    let mut out: Vec<TrimPiece<F, P>> = Vec::new();
    assert(given.take(0).filter(long) =~= Seq::empty()) by {
        reveal(Seq::filter);
    }
    while rest.len() > 0
        invariant
            rest@ == given.reverse().take(rest@.len() as int),
            rest@.len() <= given.len(),
            long == (|p: TrimPiece<F, P>| p.topology_points@.len() >= 2),
            out@ == given.take(given.len() - rest@.len()).filter(long),
        decreases rest.len(),
    {
        let ghost at = given.len() - rest@.len();
        if let Some(piece) = rest.pop() {
            proof {
                assert(piece == given[at]);
                assert(given.take(at + 1) =~= given.take(at).push(piece));
                lemma_filter_push(given.take(at), long, piece);
            }
            if piece.topology_points.len() >= 2 {
                out.push(piece);
            }
        }
    }
    assert(given.take(given.len() as int) =~= given);
    out
}

/// The loops with at least two points.
pub fn long_loops<F, P>(loops: Vec<TrimLoop<F, P>>) -> (r: Vec<TrimLoop<F, P>>)
    ensures
        r@ == loops@.filter(|l: TrimLoop<F, P>| l.topology_points@.len() >= 2),
{
    let ghost given = loops@;
    let ghost long = |l: TrimLoop<F, P>| l.topology_points@.len() >= 2;
    let mut rest = reversed(loops);
    let mut out: Vec<TrimLoop<F, P>> = Vec::new();
    assert(given.take(0).filter(long) =~= Seq::empty()) by {
        reveal(Seq::filter);
    }
    while rest.len() > 0
        invariant
            rest@ == given.reverse().take(rest@.len() as int),
            rest@.len() <= given.len(),
            long == (|l: TrimLoop<F, P>| l.topology_points@.len() >= 2),
            out@ == given.take(given.len() - rest@.len()).filter(long),
        decreases rest.len(),
    {
        let ghost at = given.len() - rest@.len();
        if let Some(l) = rest.pop() {
            proof {
                assert(l == given[at]);
                assert(given.take(at + 1) =~= given.take(at).push(l));
                lemma_filter_push(given.take(at), long, l);
            }
            if l.topology_points.len() >= 2 {
                out.push(l);
            }
        }
    }
    assert(given.take(given.len() as int) =~= given);
    out
}

/// The points of the edges one behind the other, without the last of each.
pub open spec fn without_ends<P>(edges: Seq<Seq<P>>) -> Seq<P>
    decreases edges.len(),
{
    if edges.len() == 0 {
        Seq::empty()
    } else if edges.last().len() == 0 {
        without_ends(edges.drop_last())
    } else {
        without_ends(edges.drop_last()) + edges.last().drop_last()
    }
}

pub open spec fn lists<P>(edges: Seq<Vec<P>>) -> Seq<Seq<P>> {
    edges.map_values(|e: Vec<P>| e@)
}

/// The points of a closed row of edges, each of which ends where the next one
/// starts.
pub fn connect_edges<P: Copy>(edges: &[Vec<P>]) -> (r: Vec<P>)
    ensures
        r@ == without_ends(lists(edges@)),
{
    let mut out: Vec<P> = Vec::new();
    let ghost all = lists(edges@);
    assert(all.take(0) =~= Seq::empty());
    let mut i: usize = 0;
    while i < edges.len()
        invariant
            i <= edges.len(),
            all == lists(edges@),
            out@ == without_ends(all.take(i as int)),
        decreases edges.len() - i,
    {
        let points = &edges[i];
        proof {
            assert(all.take(i + 1).drop_last() =~= all.take(i as int));
            assert(all.take(i + 1).last() == points@);
            if points@.len() > 0 {
                assert(points@.subrange(0, points@.len() - 1) =~= points@.drop_last());
            }
        }
        if points.len() > 0 {
            push_from(&mut out, points.as_slice(), 0, points.len() - 1);
        }
        i += 1;
    }
    assert(all.take(edges.len() as int) =~= all);
    out
}

fn uv_line<P: Copy>(front: P, back: P) -> (r: Vec<P>)
    ensures
        r@ == seq![front, back],
{
    vec![front, back]
}

/// The loop that goes from the end of a piece over two corners back to its
/// start, and then along the piece. `closure` holds the end of the piece, the
/// two corners and its start; `lines` the straight curves between them.
pub fn prefix_closure_loop<F, P: Copy>(
    piece: TrimPiece<F, P>,
    closure: [P; 4],
    lines: Vec<NsiBrepTrimCurveData<F>>,
) -> (r: TrimLoop<F, P>)
    ensures
        r.curves@ == lines@ + piece.curves@,
        r.topology_points@ == if piece.topology_points@.len() == 0 {
            seq![closure@[0], closure@[1], closure@[2]]
        } else {
            seq![closure@[0], closure@[1], closure@[2]] + piece.topology_points@.drop_last()
        },
        r.sampled_fallback_count == piece.sampled_fallback_count,
{
    let q = closure[0];
    let y = closure[1];
    let x = closure[2];
    let p = closure[3];
    let mut curves = lines;
    let mut own = piece.curves;
    curves.append(&mut own);
    let edges: Vec<Vec<P>> = vec![uv_line(q, y), uv_line(y, x), uv_line(x, p), piece.topology_points];
    proof {
        let all = lists(edges@);
        assert(all =~= seq![seq![q, y], seq![y, x], seq![x, p], piece.topology_points@]);
        lemma_four_edges(seq![q, y], seq![y, x], seq![x, p], piece.topology_points@);
        assert(curves@ =~= lines@ + piece.curves@);
    }
    let topology_points = connect_edges(edges.as_slice());
    TrimLoop { curves, topology_points, sampled_fallback_count: piece.sampled_fallback_count }
}

/// The loop that two pieces make up: along the first, straight to the second,
/// along it, and straight back.
pub fn joined_pieces<F, P: Copy>(
    first: TrimPiece<F, P>,
    second: TrimPiece<F, P>,
    there: NsiBrepTrimCurveData<F>,
    back: NsiBrepTrimCurveData<F>,
) -> (r: TrimLoop<F, P>)
    requires
        first.topology_points@.len() > 0,
        second.topology_points@.len() > 0,
        first.sampled_fallback_count + second.sampled_fallback_count <= usize::MAX,
    ensures
        r.curves@ == first.curves@.push(there) + second.curves@.push(back),
        r.topology_points@ == first.topology_points@ + second.topology_points@,
        r.sampled_fallback_count == first.sampled_fallback_count + second.sampled_fallback_count,
{
    let p0 = first.topology_points[0];
    let p1 = first.topology_points[first.topology_points.len() - 1];
    let q0 = second.topology_points[0];
    let q1 = second.topology_points[second.topology_points.len() - 1];
    let ghost ahead = first.topology_points@;
    let ghost behind = second.topology_points@;
    let mut curves = first.curves;
    curves.push(there);
    let mut own = second.curves;
    curves.append(&mut own);
    curves.push(back);
    assert(curves@ =~= first.curves@.push(there) + second.curves@.push(back));
    let edges: Vec<Vec<P>> = vec![
        first.topology_points,
        uv_line(p1, q0),
        second.topology_points,
        uv_line(q1, p0),
    ];
    proof {
        let all = lists(edges@);
        assert(all =~= seq![ahead, seq![p1, q0], behind, seq![q1, p0]]);
        lemma_four_edges(ahead, seq![p1, q0], behind, seq![q1, p0]);
        assert(ahead.drop_last() + seq![p1] + behind.drop_last() + seq![q1] =~= ahead + behind);
        assert(seq![p1, q0].drop_last() =~= seq![p1]);
        assert(seq![q1, p0].drop_last() =~= seq![q1]);
    }
    let topology_points = connect_edges(edges.as_slice());
    TrimLoop {
        curves,
        topology_points,
        sampled_fallback_count: first.sampled_fallback_count + second.sampled_fallback_count,
    }
}

/// The loop round all of a surface.
pub fn frame_loop<F, P: Copy>(corners: [P; 4], lines: Vec<NsiBrepTrimCurveData<F>>) -> (r: TrimLoop<
    F,
    P,
>)
    ensures
        r.curves == lines,
        r.topology_points@ == corners@,
        r.sampled_fallback_count == 0,
{
    let a = corners[0];
    let b = corners[1];
    let c = corners[2];
    let d = corners[3];
    let edges: Vec<Vec<P>> = vec![uv_line(a, b), uv_line(b, c), uv_line(c, d), uv_line(d, a)];
    proof {
        let all = lists(edges@);
        assert(all =~= seq![seq![a, b], seq![b, c], seq![c, d], seq![d, a]]);
        lemma_four_edges(seq![a, b], seq![b, c], seq![c, d], seq![d, a]);
        assert(without_ends(all) =~= corners@);
    }
    let topology_points = connect_edges(edges.as_slice());
    TrimLoop { curves: lines, topology_points, sampled_fallback_count: 0 }
}

spec fn open_end<P>(edge: Seq<P>) -> Seq<P> {
    if edge.len() == 0 {
        Seq::empty()
    } else {
        edge.drop_last()
    }
}

proof fn lemma_four_edges<P>(a: Seq<P>, b: Seq<P>, c: Seq<P>, d: Seq<P>)
    ensures
        without_ends(seq![a, b, c, d]) == open_end(a) + open_end(b) + open_end(c) + open_end(d),
{
    reveal_with_fuel(without_ends, 5);
    let all = seq![a, b, c, d];
    assert(all.drop_last() =~= seq![a, b, c]);
    assert(all.drop_last().drop_last() =~= seq![a, b]);
    assert(all.drop_last().drop_last().drop_last() =~= seq![a]);
    assert(all.drop_last().drop_last().drop_last().drop_last() =~= Seq::empty());
    assert(without_ends(all) =~= open_end(a) + open_end(b) + open_end(c) + open_end(d));
}

/// A corner of the range of a surface.
#[derive(Clone, Copy, Debug, PartialEq, Eq, Structural)]
pub struct Corner {
    pub at_upper_u: bool,
    pub at_upper_v: bool,
}

/// How one open piece is closed: along which axis it runs, and over which
/// corners the way back goes, first the one behind its end.
#[derive(Clone, Copy, Debug, PartialEq, Eq, Structural)]
pub struct PieceClosure {
    /// 0 for the first axis, 1 for the second.
    pub axis: usize,
    pub after_end: Corner,
    pub before_start: Corner,
}

/// How the end of a piece lies to its start along an axis.
#[derive(Clone, Copy, Debug, PartialEq, Eq, Structural)]
pub enum Run {
    Ahead,
    Back,
    Level,
}

pub open spec fn closure_for(along_u: Run, along_v: Run) -> Option<PieceClosure> {
    let low = Corner { at_upper_u: false, at_upper_v: false };
    let right = Corner { at_upper_u: true, at_upper_v: false };
    let left = Corner { at_upper_u: false, at_upper_v: true };
    let high = Corner { at_upper_u: true, at_upper_v: true };
    match (along_u, along_v) {
        (Run::Ahead, _) => Some(PieceClosure { axis: 0, after_end: high, before_start: left }),
        (Run::Back, _) => Some(PieceClosure { axis: 0, after_end: low, before_start: right }),
        (Run::Level, Run::Ahead) => Some(
            PieceClosure { axis: 1, after_end: left, before_start: low },
        ),
        (Run::Level, Run::Back) => Some(
            PieceClosure { axis: 1, after_end: right, before_start: high },
        ),
        (Run::Level, Run::Level) => None,
    }
}

/// How one open piece is closed, by how its end lies to its start. One that
/// ends where it starts is not.
pub fn piece_closure(along_u: Run, along_v: Run) -> (r: Option<PieceClosure>)
    ensures
        r == closure_for(along_u, along_v),
{
    let low = Corner { at_upper_u: false, at_upper_v: false };
    let right = Corner { at_upper_u: true, at_upper_v: false };
    let left = Corner { at_upper_u: false, at_upper_v: true };
    let high = Corner { at_upper_u: true, at_upper_v: true };
    match along_u {
        Run::Ahead => Some(PieceClosure { axis: 0, after_end: high, before_start: left }),
        Run::Back => Some(PieceClosure { axis: 0, after_end: low, before_start: right }),
        Run::Level => match along_v {
            Run::Ahead => Some(PieceClosure { axis: 1, after_end: left, before_start: low }),
            Run::Back => Some(PieceClosure { axis: 1, after_end: right, before_start: high }),
            Run::Level => None,
        },
    }
}

/// Both corners of the way back lie on one side of the range, and only a piece
/// that ends where it starts is not closed.
pub proof fn law_way_back_stays_on_one_side(along_u: Run, along_v: Run)
    ensures
        match closure_for(along_u, along_v) {
            Some(c) => if c.axis == 0 {
                c.after_end.at_upper_v == c.before_start.at_upper_v && c.after_end.at_upper_u
                    != c.before_start.at_upper_u
            } else {
                c.after_end.at_upper_u == c.before_start.at_upper_u && c.after_end.at_upper_v
                    != c.before_start.at_upper_v
            },
            None => along_u == Run::Level && along_v == Run::Level,
        },
{
}

/// What is done with two open pieces before they are joined.
#[derive(Clone, Copy, Debug, PartialEq, Eq, Structural)]
pub enum PairStep {
    /// The second is moved by whole periods along the axis.
    MoveByPeriod(usize),
    /// Both are brought into the range of the axis.
    BringIntoRange(usize),
    Keep,
}

/// What two pieces share along an axis.
#[derive(Clone, Copy, Debug, PartialEq, Eq, Structural)]
pub struct PairAxis {
    /// Both end elsewhere than they start.
    pub both_run: bool,
    pub has_period: bool,
    pub has_range: bool,
}

pub open spec fn step_along(axis: usize, a: PairAxis) -> PairStep {
    if a.has_period {
        PairStep::MoveByPeriod(axis)
    } else if a.has_range {
        PairStep::BringIntoRange(axis)
    } else {
        PairStep::Keep
    }
}

/// What is done with two open pieces before they are joined: the first axis
/// along which both run counts.
pub fn pair_step(u: PairAxis, v: PairAxis) -> (r: PairStep)
    ensures
        r == if u.both_run {
            step_along(0, u)
        } else if v.both_run {
            step_along(1, v)
        } else {
            PairStep::Keep
        },
{
    if u.both_run {
        if u.has_period {
            PairStep::MoveByPeriod(0)
        } else if u.has_range {
            PairStep::BringIntoRange(0)
        } else {
            PairStep::Keep
        }
    } else if v.both_run {
        if v.has_period {
            PairStep::MoveByPeriod(1)
        } else if v.has_range {
            PairStep::BringIntoRange(1)
        } else {
            PairStep::Keep
        }
    } else {
        PairStep::Keep
    }
}

/// Whether the only loop is to be turned, given for each whether it goes round
/// the positive way.
pub fn turns_only_loop(positive: &[bool]) -> (r: bool)
    ensures
        r == (positive@.len() == 1 && !positive@[0]),
{
    positive.len() == 1 && !positive[0]
}

/// Whether a loop round all of the surface is added: none of the loops goes
/// round the positive way, and the surface has a range.
pub fn needs_frame(positive: &[bool], has_range: bool) -> (r: bool)
    ensures
        r == (has_range && forall|i: int| 0 <= i < positive@.len() ==> !#[trigger] positive@[i]),
{
    let mut i: usize = 0;
    while i < positive.len()
        invariant
            i <= positive.len(),
            forall|k: int| 0 <= k < i ==> !#[trigger] positive@[k],
        decreases positive.len() - i,
    {
        if positive[i] {
            return false;
        }
        i += 1;
    }
    has_range
}

/// A closed row of points, opened between `index` and the point behind it,
/// with a point on the seam at both ends.
pub fn open_at_jump<P: Copy>(points: &[P], index: usize, first: P, last: P) -> (r: Vec<P>)
    requires
        index + 1 < points@.len(),
    ensures
        r@ == seq![first] + points@.skip(index + 1) + points@.take(index + 1) + seq![last],
{
    let mut opened: Vec<P> = Vec::new();
    let count: usize = points.len();
    opened.push(first);
    push_from(&mut opened, points, index + 1, count);
    push_from(&mut opened, points, 0, index + 1);
    opened.push(last);
    proof {
        assert(points@.subrange(index + 1, points@.len() as int) =~= points@.skip(index + 1));
        assert(points@.subrange(0, index + 1) =~= points@.take(index + 1));
        assert(opened@ =~= seq![first] + points@.skip(index + 1) + points@.take(index + 1) + seq![
            last,
        ]);
    }
    opened
}

/// The knots of a circular arc in `segments` quadratic parts, in parts of the
/// whole: three times none, twice after each inner part, three times all.
pub open spec fn arc_knot(segments: int, at: int) -> int {
    if at < 3 {
        0
    } else if at >= 2 * segments + 1 {
        segments
    } else {
        (at - 1) / 2
    }
}

/// The knots of a circular arc in `segments` quadratic parts, as how many of
/// the parts lie before each.
pub fn rational_quadratic_arc_knots(segments: usize) -> (r: Vec<usize>)
    requires
        0 < segments <= (usize::MAX - 4) / 2,
    ensures
        r@.len() == 2 * segments + 4,
        forall|i: int|
            0 <= i < r@.len() ==> #[trigger] r@[i] == arc_knot(segments as int, i),
{
    let mut knots: Vec<usize> = vec![0, 0, 0];
    let mut part: usize = 1;
    while part < segments
        invariant
            1 <= part <= segments,
            knots@.len() == 2 * part + 1,
            forall|i: int|
                0 <= i < knots@.len() ==> #[trigger] knots@[i] == arc_knot(segments as int, i),
        decreases segments - part,
    {
        knots.push(part);
        knots.push(part);
        part += 1;
    }
    knots.push(segments);
    knots.push(segments);
    knots.push(segments);
    knots
}

/// The knots of a broken line through `points` points, as how many of its
/// parts lie before each. A line has at least two points.
pub fn polyline_knots(points: usize) -> (r: Option<Vec<usize>>)
    requires
        points <= usize::MAX - 2,
    ensures
        r is Some == (points >= 2),
        match r {
            Some(knots) => {
                &&& knots@.len() == points + 2
                &&& forall|i: int|
                    0 <= i < knots@.len() ==> #[trigger] knots@[i] == (if i == 0 {
                        0
                    } else if i == points + 1 {
                        points - 1
                    } else {
                        i - 1
                    })
            },
            None => true,
        },
{
    if points < 2 {
        return None;
    }
    let mut knots: Vec<usize> = vec![0];
    let mut i: usize = 0;
    while i < points
        invariant
            2 <= points <= usize::MAX - 2,
            i <= points,
            knots@.len() == i + 1,
            forall|k: int|
                0 <= k < knots@.len() ==> #[trigger] knots@[k] == (if k == 0 {
                    0
                } else {
                    k - 1
                }),
        decreases points - i,
    {
        knots.push(i);
        i += 1;
    }
    knots.push(points - 1);
    Some(knots)
}

/// How many sampled edges the loops have in all.
pub open spec fn fallback_total<F, P>(loops: Seq<TrimLoop<F, P>>) -> nat
    decreases loops.len(),
{
    if loops.len() == 0 {
        0
    } else {
        fallback_total(loops.drop_last()) + loops.last().sampled_fallback_count as nat
    }
}

proof fn lemma_fallbacks_grow<F, P>(loops: Seq<TrimLoop<F, P>>, i: int)
    requires
        0 <= i <= loops.len(),
    ensures
        fallback_total(loops.take(i)) <= fallback_total(loops),
    decreases loops.len(),
{
    if i < loops.len() {
        lemma_fallbacks_grow(loops.drop_last(), i);
        assert(loops.drop_last().take(i) =~= loops.take(i));
    } else {
        assert(loops.take(i) =~= loops);
    }
}

/// How many sampled edges the loops have in all.
pub fn sampled_trim_fallbacks<F, P>(loops: &[TrimLoop<F, P>]) -> (r: usize)
    requires
        fallback_total(loops@) <= usize::MAX,
    ensures
        r == fallback_total(loops@),
{
    let mut total: usize = 0;
    assert(loops@.take(0) =~= Seq::empty());
    let mut i: usize = 0;
    while i < loops.len()
        invariant
            i <= loops.len(),
            fallback_total(loops@) <= usize::MAX,
            total == fallback_total(loops@.take(i as int)),
        decreases loops.len() - i,
    {
        proof {
            assert(loops@.take(i + 1).drop_last() =~= loops@.take(i as int));
            lemma_fallbacks_grow(loops@, i + 1);
        }
        total += loops[i].sampled_fallback_count;
        i += 1;
    }
    assert(loops@.take(loops.len() as int) =~= loops@);
    total
}

proof fn lemma_filter_push<T>(s: Seq<T>, keeps: spec_fn(T) -> bool, t: T)
    ensures
        s.push(t).filter(keeps) == if keeps(t) {
            s.filter(keeps).push(t)
        } else {
            s.filter(keeps)
        },
{
    reveal(Seq::filter);
    assert(s.push(t).drop_last() =~= s);
}

} // verus!
