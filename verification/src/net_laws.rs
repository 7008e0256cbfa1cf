//! What the control net and the trim curves of a surface look like to the
//! renderer, told by the places in its lists.

use vstd::prelude::*;

use crate::nsi_export::{NsiBrepSurfaceData, NsiBrepTrimData};
use crate::surface_net;
use crate::surface_net::{AxisMove, SurfaceAxis};
use crate::trim_loops;
use crate::trim_loops::{CurveModel, LoopModel};

verus! {

/// The points of one row of a net stand one behind the other, and the rows
/// follow each other: the next point along the first axis is the next in the
/// list, and the next along the second is a row further.
pub proof fn law_rows_follow_each_other<T>(net: Seq<T>, nu: int, nv: int, u: int, v: int)
    requires
        0 <= u < nu,
        0 <= v < nv,
        net.len() == nu * nv,
    ensures
        surface_net::control(net, nu, u, v) == net.subrange(v * nu, v * nu + nu)[u],
        0 <= v * nu && v * nu + nu <= net.len(),
{
    assert(0 <= v * nu && v * nu + nu <= nu * nv) by (nonlinear_arith)
        requires
            0 <= v,
            v + 1 <= nv,
            0 <= nu,
    ;
}

/// Mirroring along the first axis turns each row round, and leaves the rows in
/// their order.
pub proof fn law_mirror_turns_rows<T>(from: Seq<T>, to: Seq<T>, nu: int, nv: int, v: int)
    requires
        surface_net::is_moved(from, to, nu, nv, AxisMove::Mirror, AxisMove::Stay),
        from.len() == nu * nv,
        0 < nu,
        0 <= v < nv,
    ensures
        to.subrange(v * nu, v * nu + nu) == from.subrange(v * nu, v * nu + nu).reverse(),
{
    law_rows_follow_each_other(from, nu, nv, 0, v);
    let a = to.subrange(v * nu, v * nu + nu);
    let b = from.subrange(v * nu, v * nu + nu).reverse();
    assert forall|u: int| 0 <= u < nu implies a[u] == b[u] by {
        law_rows_follow_each_other(to, nu, nv, u, v);
        law_rows_follow_each_other(from, nu, nv, nu - 1 - u, v);
        assert(surface_net::control(to, nu, u, v) == surface_net::control(
            from,
            nu,
            nu - 1 - u,
            v,
        ));
    }
    assert(a =~= b);
}

/// Mirroring along the second axis turns the order of the rows round, and leaves
/// each row as it is.
pub proof fn law_mirror_turns_columns<T>(from: Seq<T>, to: Seq<T>, nu: int, nv: int, v: int)
    requires
        surface_net::is_moved(from, to, nu, nv, AxisMove::Stay, AxisMove::Mirror),
        from.len() == nu * nv,
        0 < nu,
        0 <= v < nv,
    ensures
        to.subrange(v * nu, v * nu + nu) == from.subrange(
            (nv - 1 - v) * nu,
            (nv - 1 - v) * nu + nu,
        ),
{
    law_rows_follow_each_other(from, nu, nv, 0, v);
    law_rows_follow_each_other(from, nu, nv, 0, nv - 1 - v);
    let a = to.subrange(v * nu, v * nu + nu);
    let b = from.subrange((nv - 1 - v) * nu, (nv - 1 - v) * nu + nu);
    assert forall|u: int| 0 <= u < nu implies a[u] == b[u] by {
        law_rows_follow_each_other(to, nu, nv, u, v);
        law_rows_follow_each_other(from, nu, nv, u, nv - 1 - v);
        assert(surface_net::control(to, nu, u, v) == surface_net::control(
            from,
            nu,
            u,
            nv - 1 - v,
        ));
    }
    assert(a =~= b);
}

/// A half turn of a closed axis goes on from one point to the next as the axis
/// did: neighbours stay neighbours, in the same direction, over the seam too.
pub proof fn law_half_turn_keeps_neighbours<T>(
    from: Seq<T>,
    to: Seq<T>,
    nu: int,
    nv: int,
    u: int,
    v: int,
)
    requires
        surface_net::is_moved(from, to, nu, nv, AxisMove::HalfTurn, AxisMove::Stay),
        nu >= 3,
        nu % 2 == 1,
        0 <= v < nv,
        0 <= u < nu - 1,
        surface_net::control(from, nu, 0, v) == surface_net::control(from, nu, nu - 1, v),
    ensures
        exists|k: int|
            0 <= k < nu - 1 && #[trigger] surface_net::control(from, nu, k, v)
                == surface_net::control(to, nu, u, v) && surface_net::control(from, nu, k + 1, v)
                == surface_net::control(to, nu, u + 1, v) && k == (u + (nu - 1) / 2) % (nu - 1),
{
    let half = (nu - 1) / 2;
    assert(nu - 1 == 2 * half);
    let k = if u < half {
        half + u
    } else {
        u - half
    };
    assert((u + half) % (2 * half) == k) by (nonlinear_arith)
        requires
            0 <= u < 2 * half,
            k == (if u < half {
                half + u
            } else {
                u - half
            }),
    ;
    let a = surface_net::control(to, nu, u, v);
    let b = surface_net::control(to, nu, u + 1, v);
    assert(surface_net::control(from, nu, k, v) == a);
    assert(surface_net::control(from, nu, k + 1, v) == b);
}

// Trim curves.

/// The number of values of a part in the first curves.
pub open spec fn values_before<F>(
    curves: Seq<CurveModel<F>>,
    part: spec_fn(CurveModel<F>) -> Seq<F>,
    n: int,
) -> int
    decreases n,
{
    if n <= 0 {
        0
    } else {
        values_before(curves, part, n - 1) + part(curves[n - 1]).len()
    }
}

proof fn lemma_values_of_fewer<F>(
    curves: Seq<CurveModel<F>>,
    part: spec_fn(CurveModel<F>) -> Seq<F>,
    n: int,
)
    requires
        0 <= n < curves.len(),
    ensures
        values_before(curves.drop_last(), part, n) == values_before(curves, part, n),
        values_before(curves, part, n) >= 0,
    decreases n,
{
    if n > 0 {
        lemma_values_of_fewer(curves, part, n - 1);
    }
}

proof fn lemma_joined_values<F>(
    curves: Seq<CurveModel<F>>,
    part: spec_fn(CurveModel<F>) -> Seq<F>,
    k: int,
    j: int,
)
    requires
        0 <= k < curves.len(),
        0 <= j < part(curves[k]).len(),
    ensures
        trim_loops::joined_parts(curves, part).len() == values_before(
            curves,
            part,
            curves.len() as int,
        ),
        0 <= values_before(curves, part, k) + j < trim_loops::joined_parts(curves, part).len(),
        trim_loops::joined_parts(curves, part)[values_before(curves, part, k) + j] == part(
            curves[k],
        )[j],
    decreases curves.len(),
{
    let init = curves.drop_last();
    let last = curves.len() - 1;
    lemma_values_of_fewer(curves, part, last);
    lemma_values_of_fewer(curves, part, k);
    lemma_joined_total(init, part);
    if k < last {
        assert(init[k] == curves[k]);
        lemma_joined_values(init, part, k, j);
    }
}

proof fn lemma_joined_total<F>(curves: Seq<CurveModel<F>>, part: spec_fn(CurveModel<F>) -> Seq<F>)
    ensures
        trim_loops::joined_parts(curves, part).len() == values_before(
            curves,
            part,
            curves.len() as int,
        ),
    decreases curves.len(),
{
    if curves.len() > 0 {
        lemma_joined_total(curves.drop_last(), part);
        lemma_values_of_fewer(curves, part, curves.len() - 1);
    }
}

/// Each list of the renderer holds its own part of the curves, one curve behind
/// the other: knots among the knots, and each coordinate in the list of its
/// name.
pub proof fn law_trim_lists_hold_their_parts<F>(
    d: NsiBrepTrimData<F>,
    curves: Seq<CurveModel<F>>,
    k: int,
    j: int,
)
    requires
        trim_loops::holds_curves(d, curves),
        0 <= k < curves.len(),
    ensures
        d.n@[k] == curves[k].n,
        d.order@[k] == curves[k].order,
        d.min@[k] == curves[k].min,
        d.max@[k] == curves[k].max,
        0 <= j < curves[k].knot.len() ==> d.knot@[values_before(
            curves,
            |c: CurveModel<F>| c.knot,
            k,
        ) + j] == curves[k].knot[j],
        0 <= j < curves[k].u.len() ==> d.u@[values_before(curves, |c: CurveModel<F>| c.u, k) + j]
            == curves[k].u[j],
        0 <= j < curves[k].v.len() ==> d.v@[values_before(curves, |c: CurveModel<F>| c.v, k) + j]
            == curves[k].v[j],
        0 <= j < curves[k].w.len() ==> d.w@[values_before(curves, |c: CurveModel<F>| c.w, k) + j]
            == curves[k].w[j],
{
    if 0 <= j < curves[k].knot.len() {
        lemma_joined_values(curves, |c: CurveModel<F>| c.knot, k, j);
    }
    if 0 <= j < curves[k].u.len() {
        lemma_joined_values(curves, |c: CurveModel<F>| c.u, k, j);
    }
    if 0 <= j < curves[k].v.len() {
        lemma_joined_values(curves, |c: CurveModel<F>| c.v, k, j);
    }
    if 0 <= j < curves[k].w.len() {
        lemma_joined_values(curves, |c: CurveModel<F>| c.w, k, j);
    }
}

/// The number of curves of the first loops.
pub open spec fn curves_before<F, P>(loops: Seq<LoopModel<F, P>>, n: int) -> int
    decreases n,
{
    if n <= 0 {
        0
    } else {
        curves_before(loops, n - 1) + loops[n - 1].curves.len()
    }
}

proof fn lemma_curves_of_fewer<F, P>(loops: Seq<LoopModel<F, P>>, n: int)
    requires
        0 <= n < loops.len(),
    ensures
        curves_before(loops.drop_last(), n) == curves_before(loops, n),
        curves_before(loops, n) >= 0,
    decreases n,
{
    if n > 0 {
        lemma_curves_of_fewer(loops, n - 1);
    }
}

proof fn lemma_curve_total<F, P>(loops: Seq<LoopModel<F, P>>)
    ensures
        trim_loops::joined_curves(loops).len() == curves_before(loops, loops.len() as int),
    decreases loops.len(),
{
    if loops.len() > 0 {
        lemma_curve_total(loops.drop_last());
        lemma_curves_of_fewer(loops, loops.len() - 1);
    }
}

/// The curves of all loops stand one behind the other, in the order of the
/// loops, and none is left out.
pub proof fn law_loops_are_joined_in_order<F, P>(loops: Seq<LoopModel<F, P>>, l: int, k: int)
    requires
        0 <= l < loops.len(),
        0 <= k < loops[l].curves.len(),
    ensures
        trim_loops::joined_curves(loops).len() == curves_before(loops, loops.len() as int),
        trim_loops::joined_curves(loops)[curves_before(loops, l) + k] == loops[l].curves[k],
    decreases loops.len(),
{
    let init = loops.drop_last();
    let last = loops.len() - 1;
    lemma_curve_total(init);
    lemma_curve_total(loops);
    lemma_curves_of_fewer(loops, l);
    if l < last {
        assert(init[l] == loops[l]);
        law_loops_are_joined_in_order(init, l, k);
        lemma_place_fits(init, l, k, init.len() as int);
    }
}

proof fn lemma_place_fits<F, P>(loops: Seq<LoopModel<F, P>>, l: int, k: int, n: int)
    requires
        0 <= l < n <= loops.len(),
        0 <= k < loops[l].curves.len(),
    ensures
        0 <= curves_before(loops, l) + k < curves_before(loops, n),
    decreases n,
{
    if l < n - 1 {
        lemma_place_fits(loops, l, k, n - 1);
    } else if l > 0 {
        lemma_not_negative(loops, l);
    }
}

proof fn lemma_not_negative<F, P>(loops: Seq<LoopModel<F, P>>, n: int)
    ensures
        curves_before(loops, n) >= 0,
    decreases n,
{
    if n > 0 {
        lemma_not_negative(loops, n - 1);
    }
}

/// A loop gone round the other way starts where it ended: its last curve comes
/// first, and each curve has its last control point first. Points stay points:
/// the three coordinates of each move together.
pub proof fn law_turned_loop_starts_at_its_end<F, P>(l: LoopModel<F, P>, k: int, j: int)
    requires
        0 <= k < l.curves.len(),
        0 <= j < l.curves[k].u.len(),
        l.curves[k].v.len() == l.curves[k].u.len(),
        l.curves[k].w.len() == l.curves[k].u.len(),
    ensures
        ({
            let given = l.curves[k];
            let turned = l.turned().curves[l.curves.len() - 1 - k];
            let back = given.u.len() - 1 - j;
            &&& l.turned().curves.len() == l.curves.len()
            &&& turned.u.len() == given.u.len()
            &&& turned.u[back] == given.u[j]
            &&& turned.v[back] == given.v[j]
            &&& turned.w[back] == given.w[j]
            &&& turned.n == given.n && turned.order == given.order
            &&& turned.min == given.min && turned.max == given.max
            &&& l.turned().fallbacks == l.fallbacks
        }),
        forall|p: int|
            0 <= p < l.points.len() ==> #[trigger] l.turned().points[p] == l.points[l.points.len()
                - 1 - p],
        forall|q: int|
            0 <= q < l.curves[k].knot.len() ==> l.turned().curves[l.curves.len() - 1
                - k].knot[#[trigger] (l.curves[k].knot.len() - 1 - q)] == l.curves[k].knot[q],
{
    let n = l.curves.len() as int;
    assert(l.curves.reverse()[n - 1 - k] == l.curves[k]);
    assert(l.turned().curves[n - 1 - k] == l.curves[k].turned());
}

/// The ends of a straight axis are neighbours along that axis, in the row or
/// column of their place.
pub proof fn law_straight_ends_are_neighbours<F>(
    s: NsiBrepSurfaceData<F>,
    net: Seq<[F; 4]>,
    i: int,
)
    requires
        s.nu >= 2,
        s.nv >= 2,
        s.nu * s.nv <= usize::MAX,
        0 <= i,
    ensures
        i < s.nv ==> {
            let (a, b) = surface_net::straight_ends(s, SurfaceAxis::U, s.nv as int)[i];
            &&& net[a as int] == surface_net::control(net, s.nu as int, 0, i)
            &&& net[b as int] == surface_net::control(net, s.nu as int, 1, i)
        },
        i < s.nu ==> {
            let (a, b) = surface_net::straight_ends(s, SurfaceAxis::V, s.nu as int)[i];
            &&& net[a as int] == surface_net::control(net, s.nu as int, i, 0)
            &&& net[b as int] == surface_net::control(net, s.nu as int, i, 1)
        },
{
    let nu = s.nu as int;
    let nv = s.nv as int;
    if i < nv {
        assert(0 <= i * nu && i * nu + 1 < nu * nv) by (nonlinear_arith)
            requires
                0 <= i < nv,
                nu >= 2,
        ;
    }
    if i < nu {
        assert(nu + i < nu * nv) by (nonlinear_arith)
            requires
                0 <= i < nu,
                nv >= 2,
        ;
    }
}

} // verus!
