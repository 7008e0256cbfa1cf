//! Closed trim loops and the arrays in which they reach the renderer.
//!
//! `F` is a real number and `P` a point of the parameter plane. Where a value
//! changes with its place, it is left to whoever knows the numbers.

use vstd::prelude::*;

use crate::nsi_export::NsiBrepTrimData;
use crate::order::reversed;

verus! {

/// A trim curve with weighted control points.
pub struct NsiBrepTrimCurveData<F> {
    pub n: i32,
    pub order: i32,
    pub knot: Vec<F>,
    pub min: F,
    pub max: F,
    pub u: Vec<F>,
    pub v: Vec<F>,
    pub w: Vec<F>,
}

/// A closed boundary.
pub struct TrimLoop<F, P> {
    pub curves: Vec<NsiBrepTrimCurveData<F>>,
    pub topology_points: Vec<P>,
    pub sampled_fallback_count: usize,
}

/// How the sense of trim loops is told.
#[derive(Clone, Copy, Debug, PartialEq, Eq, Structural)]
pub enum TrimSenseMode {
    /// Each loop has its own.
    PerLoop,
    /// All loops have the same.
    ScalarCompatible,
}

pub const SCALAR_COMPATIBLE_TRIM_SENSE: i32 = 1;

pub ghost struct CurveModel<F> {
    pub n: i32,
    pub order: i32,
    pub knot: Seq<F>,
    pub min: F,
    pub max: F,
    pub u: Seq<F>,
    pub v: Seq<F>,
    pub w: Seq<F>,
}

pub ghost struct LoopModel<F, P> {
    pub curves: Seq<CurveModel<F>>,
    pub points: Seq<P>,
    pub fallbacks: usize,
}

impl<F> View for NsiBrepTrimCurveData<F> {
    type V = CurveModel<F>;

    open spec fn view(&self) -> CurveModel<F> {
        CurveModel {
            n: self.n,
            order: self.order,
            knot: self.knot@,
            min: self.min,
            max: self.max,
            u: self.u@,
            v: self.v@,
            w: self.w@,
        }
    }
}

pub open spec fn curve_views<F>(curves: Seq<NsiBrepTrimCurveData<F>>) -> Seq<CurveModel<F>> {
    curves.map_values(|c: NsiBrepTrimCurveData<F>| c@)
}

impl<F, P> View for TrimLoop<F, P> {
    type V = LoopModel<F, P>;

    open spec fn view(&self) -> LoopModel<F, P> {
        LoopModel {
            curves: curve_views(self.curves@),
            points: self.topology_points@,
            fallbacks: self.sampled_fallback_count,
        }
    }
}

impl<F> CurveModel<F> {
    /// The curve with its control points and knots in the opposite order.
    pub open spec fn turned(self) -> CurveModel<F> {
        CurveModel {
            knot: self.knot.reverse(),
            u: self.u.reverse(),
            v: self.v.reverse(),
            w: self.w.reverse(),
            ..self
        }
    }
}

pub open spec fn turned_curves<F>(curves: Seq<CurveModel<F>>) -> Seq<CurveModel<F>> {
    curves.reverse().map_values(|c: CurveModel<F>| c.turned())
}

impl<F, P> LoopModel<F, P> {
    /// The loop gone round the other way.
    pub open spec fn turned(self) -> LoopModel<F, P> {
        LoopModel {
            curves: turned_curves(self.curves),
            points: self.points.reverse(),
            fallbacks: self.fallbacks,
        }
    }
}

/// Turning a loop twice brings it back.
pub proof fn law_loop_turned_twice<F, P>(l: LoopModel<F, P>)
    ensures
        l.turned().turned() == l,
{
    let twice = l.turned().turned();
    assert(twice.points =~= l.points);
    assert forall|i: int| 0 <= i < l.curves.len() implies twice.curves[i] == l.curves[i] by {
        let c = l.curves[i];
        assert(l.turned().curves[l.curves.len() - 1 - i] == c.turned());
        assert(c.turned().turned().knot =~= c.knot);
        assert(c.turned().turned().u =~= c.u);
        assert(c.turned().turned().v =~= c.v);
        assert(c.turned().turned().w =~= c.w);
    }
    assert(twice.curves =~= l.curves);
}

/// The curve with its control points and knots in the opposite order.
pub fn reversed_curve<F>(curve: NsiBrepTrimCurveData<F>) -> (r: NsiBrepTrimCurveData<F>)
    ensures
        r@ == curve@.turned(),
{
    NsiBrepTrimCurveData {
        n: curve.n,
        order: curve.order,
        knot: reversed(curve.knot),
        min: curve.min,
        max: curve.max,
        u: reversed(curve.u),
        v: reversed(curve.v),
        w: reversed(curve.w),
    }
}

/// The loop gone round the other way.
pub fn reverse_trim_loop<F, P>(trim_loop: TrimLoop<F, P>) -> (r: TrimLoop<F, P>)
    ensures
        r@ == trim_loop@.turned(),
{
    let ghost given = trim_loop.curves@;
    let ghost model = trim_loop@;
    let mut rest = trim_loop.curves;
    let mut curves: Vec<NsiBrepTrimCurveData<F>> = Vec::new();
    while rest.len() > 0
        invariant
            rest@ == given.take(rest@.len() as int),
            rest@.len() + curves@.len() == given.len(),
            forall|k: int|
                0 <= k < curves@.len() ==> (#[trigger] curves@[k])@ == given[given.len() - 1
                    - k]@.turned(),
        decreases rest.len(),
    {
        match rest.pop() {
            Some(curve) => {
                curves.push(reversed_curve(curve));
            },
            None => {},
        }
    }
    let r = TrimLoop {
        curves,
        topology_points: reversed(trim_loop.topology_points),
        sampled_fallback_count: trim_loop.sampled_fallback_count,
    };
    proof {
        let turned = model.turned();
        assert forall|k: int| 0 <= k < given.len() implies r@.curves[k] == turned.curves[k] by {
            assert(curves@[k]@ == given[given.len() - 1 - k]@.turned());
            assert(model.curves.reverse()[k] == model.curves[given.len() - 1 - k]);
        }
        assert(r@.curves =~= turned.curves);
        assert(r@ == turned);
    }
    r
}

/// The sense of a loop, by whether it goes round the positive way.
pub open spec fn sense_of(positive: bool) -> i32 {
    if positive {
        0
    } else {
        1
    }
}

/// The senses of the loops, and which of them are to be turned first. By loop,
/// each keeps its own; else those that have another are turned.
pub fn trim_senses_for_mode(positive: &[bool], mode: TrimSenseMode) -> (r: (Vec<i32>, Vec<bool>))
    ensures
        r.0@.len() == positive@.len(),
        r.1@.len() == positive@.len(),
        forall|i: int|
            0 <= i < positive@.len() ==> #[trigger] r.0@[i] == (if mode == TrimSenseMode::PerLoop {
                sense_of(positive@[i])
            } else {
                SCALAR_COMPATIBLE_TRIM_SENSE
            }),
        forall|i: int|
            0 <= i < positive@.len() ==> #[trigger] r.1@[i] == (mode
                == TrimSenseMode::ScalarCompatible && sense_of(positive@[i])
                != SCALAR_COMPATIBLE_TRIM_SENSE),
        forall|i: int|
            0 <= i < positive@.len() ==> (#[trigger] r.0@[i] == if positive@[i] != r.1@[i] {
                0i32
            } else {
                1i32
            }),
{
    let mut senses: Vec<i32> = Vec::new();
    let mut turns: Vec<bool> = Vec::new();
    let mut i: usize = 0;
    while i < positive.len()
        invariant
            i <= positive.len(),
            senses@.len() == i,
            turns@.len() == i,
            forall|k: int|
                0 <= k < i ==> #[trigger] senses@[k] == (if mode == TrimSenseMode::PerLoop {
                    sense_of(positive@[k])
                } else {
                    SCALAR_COMPATIBLE_TRIM_SENSE
                }),
            forall|k: int|
                0 <= k < i ==> #[trigger] turns@[k] == (mode == TrimSenseMode::ScalarCompatible
                    && sense_of(positive@[k]) != SCALAR_COMPATIBLE_TRIM_SENSE),
        decreases positive.len() - i,
    {
        match mode {
            TrimSenseMode::PerLoop => {
                senses.push(
                    if positive[i] {
                        0
                    } else {
                        1
                    },
                );
                turns.push(false);
            },
            TrimSenseMode::ScalarCompatible => {
                senses.push(SCALAR_COMPATIBLE_TRIM_SENSE);
                turns.push(positive[i]);
            },
        }
        i += 1;
    }
    (senses, turns)
}

/// Which loops are to be turned so that the outer one goes round the positive
/// way and all others do not.
pub fn winding_turns(positive: &[bool], outer: usize) -> (r: Vec<bool>)
    ensures
        r@.len() == positive@.len(),
        forall|i: int|
            0 <= i < positive@.len() ==> #[trigger] r@[i] == (positive@[i] != (i == outer)),
{
    let mut turns: Vec<bool> = Vec::new();
    let mut i: usize = 0;
    while i < positive.len()
        invariant
            i <= positive.len(),
            turns@.len() == i,
            forall|k: int| 0 <= k < i ==> #[trigger] turns@[k] == (positive@[k] != (k == outer)),
        decreases positive.len() - i,
    {
        turns.push(positive[i] != (i == outer));
        i += 1;
    }
    turns
}

/// The loops, those that are marked gone round the other way.
pub fn turn_loops<F, P>(loops: Vec<TrimLoop<F, P>>, turns: &[bool]) -> (r: Vec<TrimLoop<F, P>>)
    requires
        loops@.len() == turns@.len(),
    ensures
        r@.len() == loops@.len(),
        forall|i: int|
            0 <= i < r@.len() ==> (#[trigger] r@[i])@ == (if turns@[i] {
                loops@[i]@.turned()
            } else {
                loops@[i]@
            }),
{
    let ghost given = loops@;
    let mut rest = reversed(loops);
    let mut out: Vec<TrimLoop<F, P>> = Vec::new();
    while rest.len() > 0
        invariant
            given.len() == turns@.len(),
            rest@ == given.reverse().take(rest@.len() as int),
            rest@.len() + out@.len() == given.len(),
            forall|k: int|
                0 <= k < out@.len() ==> (#[trigger] out@[k])@ == (if turns@[k] {
                    given[k]@.turned()
                } else {
                    given[k]@
                }),
        decreases rest.len(),
    {
        let at: usize = out.len();
        match rest.pop() {
            Some(l) => {
                assert(l == given[at as int]);
                if turns[at] {
                    out.push(reverse_trim_loop(l));
                } else {
                    out.push(l);
                }
            },
            None => {},
        }
    }
    out
}

/// The curves of all loops, one loop behind the other.
pub open spec fn joined_curves<F, P>(loops: Seq<LoopModel<F, P>>) -> Seq<CurveModel<F>>
    decreases loops.len(),
{
    if loops.len() == 0 {
        Seq::empty()
    } else {
        joined_curves(loops.drop_last()) + loops.last().curves
    }
}

/// The parts of all curves, one curve behind the other.
pub open spec fn joined_parts<F>(
    curves: Seq<CurveModel<F>>,
    part: spec_fn(CurveModel<F>) -> Seq<F>,
) -> Seq<F>
    decreases curves.len(),
{
    if curves.len() == 0 {
        Seq::empty()
    } else {
        joined_parts(curves.drop_last(), part) + part(curves.last())
    }
}

pub open spec fn loop_views<F, P>(loops: Seq<TrimLoop<F, P>>) -> Seq<LoopModel<F, P>> {
    loops.map_values(|l: TrimLoop<F, P>| l@)
}

/// The arrays hold the curves one behind the other.
pub open spec fn holds_curves<F>(d: NsiBrepTrimData<F>, curves: Seq<CurveModel<F>>) -> bool {
    &&& d.n@ == curves.map_values(|c: CurveModel<F>| c.n)
    &&& d.order@ == curves.map_values(|c: CurveModel<F>| c.order)
    &&& d.min@ == curves.map_values(|c: CurveModel<F>| c.min)
    &&& d.max@ == curves.map_values(|c: CurveModel<F>| c.max)
    &&& d.knot@ == joined_parts(curves, |c: CurveModel<F>| c.knot)
    &&& d.u@ == joined_parts(curves, |c: CurveModel<F>| c.u)
    &&& d.v@ == joined_parts(curves, |c: CurveModel<F>| c.v)
    &&& d.w@ == joined_parts(curves, |c: CurveModel<F>| c.w)
}

fn push_all<F: Copy>(out: &mut Vec<F>, part: &[F])
    ensures
        final(out)@ == old(out)@ + part@,
{
    let ghost start = out@;
    let mut i: usize = 0;
    assert(start + part@.take(0) =~= start);
    while i < part.len()
        invariant
            i <= part.len(),
            out@ == start + part@.take(i as int),
        decreases part.len() - i,
    {
        out.push(part[i]);
        assert(out@ =~= start + part@.take(i + 1));
        i += 1;
    }
    assert(part@.take(part.len() as int) =~= part@);
}

fn push_curve<F: Copy>(d: &mut NsiBrepTrimData<F>, curve: &NsiBrepTrimCurveData<F>, Ghost(before): Ghost<
    Seq<CurveModel<F>>,
>)
    requires
        holds_curves(*old(d), before),
    ensures
        holds_curves(*final(d), before.push(curve@)),
        final(d).nloops == old(d).nloops,
        final(d).ncurves@ == old(d).ncurves@,
        final(d).sense == old(d).sense,
{
    d.n.push(curve.n);
    d.order.push(curve.order);
    d.min.push(curve.min);
    d.max.push(curve.max);
    push_all(&mut d.knot, curve.knot.as_slice());
    push_all(&mut d.u, curve.u.as_slice());
    push_all(&mut d.v, curve.v.as_slice());
    push_all(&mut d.w, curve.w.as_slice());
    proof {
        let all = before.push(curve@);
        assert(all.drop_last() =~= before);
        assert(d.n@ =~= all.map_values(|c: CurveModel<F>| c.n));
        assert(d.order@ =~= all.map_values(|c: CurveModel<F>| c.order));
        assert(d.min@ =~= all.map_values(|c: CurveModel<F>| c.min));
        assert(d.max@ =~= all.map_values(|c: CurveModel<F>| c.max));
    }
}

/// The trim curves of a surface in the arrays of the renderer: loop after
/// loop, and in each loop curve after curve.
pub fn trim_loops_to_nsi_data<F: Copy, P>(loops: &[TrimLoop<F, P>], sense: Vec<i32>) -> (r:
    NsiBrepTrimData<F>)
    requires
        loops@.len() <= i32::MAX,
        forall|i: int| 0 <= i < loops@.len() ==> (#[trigger] loops@[i]).curves@.len() <= i32::MAX,
    ensures
        r.nloops == loops@.len(),
        r.ncurves@.len() == loops@.len(),
        forall|i: int|
            0 <= i < loops@.len() ==> #[trigger] r.ncurves@[i] == loops@[i].curves@.len(),
        holds_curves(r, joined_curves(loop_views(loops@))),
        r.sense == sense,
{
    let mut d = NsiBrepTrimData {
        nloops: loops.len() as i32,
        ncurves: Vec::new(),
        n: Vec::new(),
        order: Vec::new(),
        knot: Vec::new(),
        min: Vec::new(),
        max: Vec::new(),
        u: Vec::new(),
        v: Vec::new(),
        w: Vec::new(),
        sense,
    };
    let ghost all = loop_views(loops@);
    let ghost mut done: Seq<CurveModel<F>> = Seq::empty();
    proof {
        assert(d.n@ =~= done.map_values(|c: CurveModel<F>| c.n));
        assert(d.order@ =~= done.map_values(|c: CurveModel<F>| c.order));
        assert(d.min@ =~= done.map_values(|c: CurveModel<F>| c.min));
        assert(d.max@ =~= done.map_values(|c: CurveModel<F>| c.max));
        assert(all.take(0) =~= Seq::empty());
    }
    let mut i: usize = 0;
    while i < loops.len()
        invariant
            i <= loops.len(),
            all == loop_views(loops@),
            forall|k: int|
                0 <= k < loops@.len() ==> (#[trigger] loops@[k]).curves@.len() <= i32::MAX,
            d.nloops == loops@.len(),
            d.sense == sense,
            d.ncurves@.len() == i,
            forall|k: int| 0 <= k < i ==> #[trigger] d.ncurves@[k] == loops@[k].curves@.len(),
            done == joined_curves(all.take(i as int)),
            holds_curves(d, done),
        decreases loops.len() - i,
    {
        let curves = &loops[i].curves;
        let ghost views = curve_views(curves@);
        let ghost start = done;
        let ghost counts = d.ncurves@;
        let mut k: usize = 0;
        assert(start + views.take(0) =~= start);
        while k < curves.len()
            invariant
                k <= curves.len(),
                views == curve_views(curves@),
                done == start + views.take(k as int),
                d.nloops == loops@.len(),
                d.sense == sense,
                d.ncurves@ == counts,
                holds_curves(d, done),
            decreases curves.len() - k,
        {
            push_curve(&mut d, &curves[k], Ghost(done));
            proof {
                done = done.push(curves@[k as int]@);
                assert(done =~= start + views.take(k + 1));
            }
            k += 1;
        }
        assert(views.take(curves.len() as int) =~= views);
        d.ncurves.push(curves.len() as i32);
        proof {
            assert(all.take(i + 1).drop_last() =~= all.take(i as int));
            assert(all.take(i + 1).last() == loops@[i as int]@);
        }
        i += 1;
    }
    assert(all.take(loops.len() as int) =~= all);
    d
}

} // verus!
