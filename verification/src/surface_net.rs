//! The control net of a surface, as the renderer lays it out.
//!
//! A net of `nu` by `nv` control points is a list of `nv` rows, each with `nu`
//! points. `F` is a real number. Where the value of a knot changes with its
//! place, it is left to whoever knows the numbers.

use vstd::prelude::*;

use crate::nsi_export::{NsiBrepSurfaceData, NsiBrepTrimData};
use crate::order::reversed;

verus! {

#[derive(Clone, Copy, Debug, PartialEq, Eq, Structural)]
pub enum SurfaceAxis {
    U,
    V,
}

/// How the places along an axis change.
#[derive(Clone, Copy, Debug, PartialEq, Eq, Structural)]
pub enum AxisMove {
    Stay,
    Mirror,
    /// The seam of a closed axis, whose ends are the same point, goes half way
    /// round.
    HalfTurn,
}

/// The place, out of `n`, that comes to stand at `i`.
pub open spec fn moved(m: AxisMove, n: int, i: int) -> int {
    match m {
        AxisMove::Stay => i,
        AxisMove::Mirror => n - 1 - i,
        AxisMove::HalfTurn => {
            let half = (n - 1) / 2;
            if i <= half {
                half + i
            } else {
                i - half
            }
        },
    }
}

/// The control point in column `u` of row `v`.
pub open spec fn control<T>(net: Seq<T>, nu: int, u: int, v: int) -> T {
    net[v * nu + u]
}

/// The net `to` is `from`, moved along both axes.
pub open spec fn is_moved<T>(
    from: Seq<T>,
    to: Seq<T>,
    nu: int,
    nv: int,
    along_u: AxisMove,
    along_v: AxisMove,
) -> bool {
    &&& to.len() == from.len()
    &&& forall|u: int, v: int|
        0 <= u < nu && 0 <= v < nv ==> #[trigger] control(to, nu, u, v) == control(
            from,
            nu,
            moved(along_u, nu, u),
            moved(along_v, nv, v),
        )
}

proof fn lemma_place(nu: int, nv: int, u: int, v: int)
    requires
        0 <= u < nu,
        0 <= v < nv,
    ensures
        0 <= v * nu + u < nu * nv,
{
    assert(v * nu + u < nu * nv) by (nonlinear_arith)
        requires
            0 <= u < nu,
            0 <= v,
            v + 1 <= nv,
    ;
    assert(0 <= v * nu) by (nonlinear_arith)
        requires
            0 <= v,
            0 <= nu,
    ;
}

proof fn lemma_earlier(nu: int, a: int, b: int, u: int, v: int)
    requires
        0 <= a < nu,
        0 <= b,
        0 <= u,
        b < v || b == v && a < u,
    ensures
        0 <= b * nu + a < v * nu + u,
{
    assert(0 <= b * nu) by (nonlinear_arith)
        requires
            0 <= b,
            0 <= nu,
    ;
    if b < v {
        assert(b * nu + nu <= v * nu) by (nonlinear_arith)
            requires
                b + 1 <= v,
                0 <= nu,
        ;
    }
}

/// Two nets of the same size with the same control points are the same.
proof fn lemma_same_net<T>(a: Seq<T>, b: Seq<T>, nu: int, nv: int)
    requires
        0 < nu,
        0 <= nv,
        a.len() == nu * nv,
        b.len() == a.len(),
        forall|u: int, v: int|
            0 <= u < nu && 0 <= v < nv ==> #[trigger] control(a, nu, u, v) == control(b, nu, u, v),
    ensures
        a == b,
{
    assert forall|i: int| 0 <= i < a.len() implies a[i] == b[i] by {
        let u = i % nu;
        let v = i / nu;
        assert(i == v * nu + u && 0 <= u < nu && 0 <= v < nv) by (nonlinear_arith)
            requires
                0 < nu,
                0 <= i < nu * nv,
                u == i % nu,
                v == i / nu,
        ;
        assert(control(a, nu, u, v) == control(b, nu, u, v));
    }
    assert(a =~= b);
}

/// Mirroring a net twice along the same axis brings it back.
pub proof fn law_mirrored_twice<T>(
    first: Seq<T>,
    second: Seq<T>,
    third: Seq<T>,
    nu: int,
    nv: int,
    axis: SurfaceAxis,
)
    requires
        0 < nu,
        0 <= nv,
        first.len() == nu * nv,
        is_moved(
            first,
            second,
            nu,
            nv,
            if axis == SurfaceAxis::U { AxisMove::Mirror } else { AxisMove::Stay },
            if axis == SurfaceAxis::V { AxisMove::Mirror } else { AxisMove::Stay },
        ),
        is_moved(
            second,
            third,
            nu,
            nv,
            if axis == SurfaceAxis::U { AxisMove::Mirror } else { AxisMove::Stay },
            if axis == SurfaceAxis::V { AxisMove::Mirror } else { AxisMove::Stay },
        ),
    ensures
        third == first,
{
    assert forall|u: int, v: int| 0 <= u < nu && 0 <= v < nv implies #[trigger] control(
        third,
        nu,
        u,
        v,
    ) == control(first, nu, u, v) by {
        if axis == SurfaceAxis::U {
            assert(control(third, nu, u, v) == control(second, nu, nu - 1 - u, v));
            assert(control(second, nu, nu - 1 - u, v) == control(first, nu, u, v));
        } else {
            assert(control(third, nu, u, v) == control(second, nu, u, nv - 1 - v));
            assert(control(second, nu, u, nv - 1 - v) == control(first, nu, u, v));
        }
    }
    lemma_same_net(third, first, nu, nv);
}

/// A half turn leaves the ends of a closed axis the same point.
pub proof fn law_half_turn_stays_closed<T>(from: Seq<T>, to: Seq<T>, nu: int, nv: int, v: int)
    requires
        nu >= 5,
        nu % 2 == 1,
        0 <= v < nv,
        is_moved(from, to, nu, nv, AxisMove::HalfTurn, AxisMove::Stay),
    ensures
        control(to, nu, 0, v) == control(to, nu, nu - 1, v),
{
    let half = (nu - 1) / 2;
    assert(nu - 1 == 2 * half);
    assert(control(to, nu, 0, v) == control(from, nu, half, v));
    assert(control(to, nu, nu - 1, v) == control(from, nu, half, v));
}

fn moved_place(m: AxisMove, n: usize, i: usize) -> (r: usize)
    requires
        i < n,
        m == AxisMove::HalfTurn ==> n % 2 == 1,
    ensures
        r == moved(m, n as int, i as int),
        r < n,
{
    match m {
        AxisMove::Stay => i,
        AxisMove::Mirror => n - 1 - i,
        AxisMove::HalfTurn => {
            let half = (n - 1) / 2;
            if i <= half {
                half + i
            } else {
                i - half
            }
        },
    }
}

fn moved_net<T: Copy>(
    net: &[T],
    nu: usize,
    nv: usize,
    along_u: AxisMove,
    along_v: AxisMove,
) -> (r: Vec<T>)
    requires
        net@.len() == nu * nv,
        along_u == AxisMove::HalfTurn ==> nu % 2 == 1,
        along_v == AxisMove::HalfTurn ==> nv % 2 == 1,
    ensures
        is_moved(net@, r@, nu as int, nv as int, along_u, along_v),
{
    let mut out: Vec<T> = Vec::new();
    let len: usize = net.len();
    let ghost wide = nu as int;
    let ghost high = nv as int;
    let mut v: usize = 0;
    while v < nv
        invariant
            v <= nv,
            wide == nu,
            high == nv,
            net@.len() == nu * nv,
            net@.len() == len,
            along_u == AxisMove::HalfTurn ==> nu % 2 == 1,
            along_v == AxisMove::HalfTurn ==> nv % 2 == 1,
            out@.len() == v * nu,
            forall|a: int, b: int|
                0 <= a < nu && 0 <= b < v ==> #[trigger] control(out@, wide, a, b) == control(
                    net@,
                    wide,
                    moved(along_u, wide, a),
                    moved(along_v, high, b),
                ),
        decreases nv - v,
    {
        let from = moved_place(along_v, nv, v);
        let mut u: usize = 0;
        while u < nu
            invariant
                u <= nu,
                v < nv,
                from < nv,
                from == moved(along_v, high, v as int),
                wide == nu,
                high == nv,
                net@.len() == nu * nv,
                net@.len() == len,
                along_u == AxisMove::HalfTurn ==> nu % 2 == 1,
                out@.len() == v * nu + u,
                forall|a: int, b: int|
                    0 <= a < nu && 0 <= b && (b < v || b == v && a < u) ==> #[trigger] control(
                        out@,
                        wide,
                        a,
                        b,
                    ) == control(net@, wide, moved(along_u, wide, a), moved(along_v, high, b)),
            decreases nu - u,
        {
            let across = moved_place(along_u, nu, u);
            proof {
                lemma_place(wide, high, across as int, from as int);
            }
            let ghost before = out@;
            out.push(net[from * nu + across]);
            proof {
                assert forall|a: int, b: int|
                    0 <= a < nu && 0 <= b && (b < v || b == v && a < u + 1) implies #[trigger] control(
                    out@,
                    wide,
                    a,
                    b,
                ) == control(net@, wide, moved(along_u, wide, a), moved(along_v, high, b)) by {
                    if b == v && a == u {
                    } else {
                        lemma_earlier(wide, a, b, u as int, v as int);
                        assert(control(out@, wide, a, b) == control(before, wide, a, b));
                    }
                }
            }
            u += 1;
        }
        assert(v * nu + nu == (v + 1) * nu) by (nonlinear_arith);
        v += 1;
    }
    assert(nv * nu == nu * nv) by (nonlinear_arith);
    out
}

/// The width and height of the net.
pub open spec fn dimensions<F>(s: NsiBrepSurfaceData<F>) -> Option<(usize, usize)> {
    if s.nu >= 0 && s.nv >= 0 {
        Some((s.nu as usize, s.nv as usize))
    } else {
        None
    }
}

/// The width and height of the net, unless one of them is negative.
pub fn surface_dimensions<F>(surface: &NsiBrepSurfaceData<F>) -> (r: Option<(usize, usize)>)
    ensures
        r == dimensions(*surface),
{
    if surface.nu >= 0 && surface.nv >= 0 {
        Some((surface.nu as usize, surface.nv as usize))
    } else {
        None
    }
}

/// Whether a surface runs straight along an axis.
pub fn surface_axis_is_linear<F>(surface: &NsiBrepSurfaceData<F>, axis: SurfaceAxis) -> (r: bool)
    ensures
        r == match axis {
            SurfaceAxis::U => surface.nu == 2 && surface.uorder == 2,
            SurfaceAxis::V => surface.nv == 2 && surface.vorder == 2,
        },
{
    match axis {
        SurfaceAxis::U => surface.nu == 2 && surface.uorder == 2,
        SurfaceAxis::V => surface.nv == 2 && surface.vorder == 2,
    }
}

/// The index of the control point in column `u` of row `v`, if there is one.
pub fn surface_control_index<F>(surface: &NsiBrepSurfaceData<F>, u: usize, v: usize) -> (r: Option<
    usize,
>)
    ensures
        r == if 0 <= u < surface.nu && 0 <= v < surface.nv && v * surface.nu + u <= usize::MAX {
            Some((v * surface.nu + u) as usize)
        } else {
            None
        },
{
    match surface_dimensions(surface) {
        Some((nu, nv)) => {
            if u < nu && v < nv {
                match v.checked_mul(nu) {
                    Some(row) => row.checked_add(u),
                    None => None,
                }
            } else {
                None
            }
        },
        None => None,
    }
}

/// Both ends of a straight axis, once for each place of the other axis.
pub open spec fn straight_ends<F>(s: NsiBrepSurfaceData<F>, axis: SurfaceAxis, count: int) -> Seq<
    (usize, usize),
> {
    Seq::new(
        count as nat,
        |i: int|
            match axis {
                SurfaceAxis::U => ((i * s.nu) as usize, (i * s.nu + 1) as usize),
                SurfaceAxis::V => (i as usize, (s.nu + i) as usize),
            },
    )
}

/// Where the ends of a straight axis stand in the net, once for each place of
/// the other axis.
pub fn linear_axis_ends<F>(surface: &NsiBrepSurfaceData<F>, axis: SurfaceAxis) -> (r: Vec<
    (usize, usize),
>)
    requires
        surface.nu >= 0 && surface.nv >= 0 ==> surface.nu * surface.nv <= usize::MAX,
    ensures
        r@ == match axis {
            SurfaceAxis::U if surface.nu >= 2 && surface.nv >= 0 => straight_ends(
                *surface,
                axis,
                surface.nv as int,
            ),
            SurfaceAxis::V if surface.nu >= 0 && surface.nv >= 2 => straight_ends(
                *surface,
                axis,
                surface.nu as int,
            ),
            _ => Seq::empty(),
        },
{
    let mut out: Vec<(usize, usize)> = Vec::new();
    if let Some((nu, nv)) = surface_dimensions(surface) {
        let count: usize = match axis {
            SurfaceAxis::U => nv,
            SurfaceAxis::V => nu,
        };
        let other: usize = match axis {
            SurfaceAxis::U => nu,
            SurfaceAxis::V => nv,
        };
        if other >= 2 {
            let mut i: usize = 0;
            while i < count
                invariant
                    i <= count,
                    nu == surface.nu,
                    nv == surface.nv,
                    axis == SurfaceAxis::U ==> count == nv && nu >= 2,
                    axis == SurfaceAxis::V ==> count == nu && nv >= 2,
                    nu * nv <= usize::MAX,
                    out@ == straight_ends(*surface, axis, i as int),
                decreases count - i,
            {
                let (start, end) = match axis {
                    SurfaceAxis::U => {
                        proof {
                            lemma_place(nu as int, nv as int, 1, i as int);
                        }
                        (surface_control_index(surface, 0, i), surface_control_index(surface, 1, i))
                    },
                    SurfaceAxis::V => {
                        proof {
                            lemma_place(nu as int, nv as int, i as int, 1);
                        }
                        (surface_control_index(surface, i, 0), surface_control_index(surface, i, 1))
                    },
                };
                if let (Some(start), Some(end)) = (start, end) {
                    out.push((start, end));
                }
                assert(out@ =~= straight_ends(*surface, axis, i + 1));
                i += 1;
            }
        }
    }
    assert(straight_ends(*surface, axis, 0) =~= Seq::empty());
    out
}

/// Whether the net holds as many control points as it should.
pub open spec fn net_is_full<F>(s: NsiBrepSurfaceData<F>) -> bool {
    s.nu >= 0 && s.nv >= 0 && s.pw@.len() == s.nu * s.nv
}

/// Only the net and the knots of one axis change.
pub open spec fn same_but_net<F>(a: NsiBrepSurfaceData<F>, b: NsiBrepSurfaceData<F>) -> bool {
    &&& b == (NsiBrepSurfaceData { pw: b.pw, uknot: b.uknot, vknot: b.vknot, ..a })
}

fn is_full<F>(surface: &NsiBrepSurfaceData<F>) -> (r: bool)
    ensures
        r == net_is_full(*surface),
{
    let len: usize = surface.pw.len();
    if surface.nu >= 0 && surface.nv >= 0 {
        match (surface.nu as usize).checked_mul(surface.nv as usize) {
            Some(size) => size == len,
            None => false,
        }
    } else {
        false
    }
}

/// The surface with its first axis turned round: each row of the net and the
/// knots of that axis in the opposite order. A net that does not hold as many
/// control points as it should stays as it is. Returns whether it was turned.
pub fn mirror_surface_u_axis<F: Copy>(surface: NsiBrepSurfaceData<F>) -> (r: (
    NsiBrepSurfaceData<F>,
    bool,
))
    requires
        !(surface.nu == 0 && net_is_full(surface)),
    ensures
        r.1 == net_is_full(surface),
        same_but_net(surface, r.0),
        r.0.vknot == surface.vknot,
        !r.1 ==> r.0 == surface,
        r.1 ==> r.0.uknot@ == surface.uknot@.reverse() && is_moved(
            surface.pw@,
            r.0.pw@,
            surface.nu as int,
            surface.nv as int,
            AxisMove::Mirror,
            AxisMove::Stay,
        ),
{
    if is_full(&surface) {
        let pw = moved_net(
            surface.pw.as_slice(),
            surface.nu as usize,
            surface.nv as usize,
            AxisMove::Mirror,
            AxisMove::Stay,
        );
        (NsiBrepSurfaceData { pw, uknot: reversed(surface.uknot), ..surface }, true)
    } else {
        (surface, false)
    }
}

/// The surface with its second axis turned round: the rows of the net and the
/// knots of that axis in the opposite order. A net that does not hold as many
/// control points as it should stays as it is. Returns whether it was turned.
pub fn mirror_surface_v_axis<F: Copy>(surface: NsiBrepSurfaceData<F>) -> (r: (
    NsiBrepSurfaceData<F>,
    bool,
))
    requires
        !(surface.nu == 0 && net_is_full(surface)),
    ensures
        r.1 == net_is_full(surface),
        same_but_net(surface, r.0),
        r.0.uknot == surface.uknot,
        !r.1 ==> r.0 == surface,
        r.1 ==> r.0.vknot@ == surface.vknot@.reverse() && is_moved(
            surface.pw@,
            r.0.pw@,
            surface.nu as int,
            surface.nv as int,
            AxisMove::Stay,
            AxisMove::Mirror,
        ),
{
    if is_full(&surface) {
        let pw = moved_net(
            surface.pw.as_slice(),
            surface.nu as usize,
            surface.nv as usize,
            AxisMove::Stay,
            AxisMove::Mirror,
        );
        (NsiBrepSurfaceData { pw, vknot: reversed(surface.vknot), ..surface }, true)
    } else {
        (surface, false)
    }
}

/// Moves the seam of the first axis half way round, in every row, where that
/// axis has an odd number of places and at least five. Returns whether it was
/// moved.
pub fn rotate_periodic_surface_u_axis_by_half_period<F: Copy>(surface: &mut NsiBrepSurfaceData<F>)
    -> (r: bool)
    ensures
        r == (old(surface).nu >= 5 && old(surface).nv >= 0 && old(surface).nu % 2 == 1 && old(
            surface,
        ).pw@.len() as int % old(surface).nu as int == 0),
        *final(surface) == (NsiBrepSurfaceData { pw: final(surface).pw, ..*old(surface) }),
        !r ==> *final(surface) == *old(surface),
        r ==> is_moved(
            old(surface).pw@,
            final(surface).pw@,
            old(surface).nu as int,
            old(surface).pw@.len() as int / old(surface).nu as int,
            AxisMove::HalfTurn,
            AxisMove::Stay,
        ),
{
    let (nu, _nv): (usize, usize) = match surface_dimensions(&*surface) {
        Some(d) => d,
        None => {
            return false;
        },
    };
    let len: usize = surface.pw.len();
    if nu < 5 || nu % 2 == 0 || len % nu != 0 {
        return false;
    }
    let rows: usize = len / nu;
    assert(nu * rows == len) by (nonlinear_arith)
        requires
            nu > 0,
            len % nu == 0,
            rows == len / nu,
    ;
    let pw = moved_net(surface.pw.as_slice(), nu, rows, AxisMove::HalfTurn, AxisMove::Stay);
    surface.pw = pw;
    true
}

/// Moves the seam of the second axis half way round, in every column, where
/// that axis has an odd number of places and at least five and the net holds
/// as many control points as it should. Returns whether it was moved.
pub fn rotate_periodic_surface_v_axis_by_half_period<F: Copy>(surface: &mut NsiBrepSurfaceData<F>)
    -> (r: bool)
    requires
        !(old(surface).nu == 0 && net_is_full(*old(surface)) && old(surface).nv >= 5 && old(
            surface,
        ).nv % 2 == 1),
    ensures
        r == (net_is_full(*old(surface)) && old(surface).nv >= 5 && old(surface).nv % 2 == 1),
        *final(surface) == (NsiBrepSurfaceData { pw: final(surface).pw, ..*old(surface) }),
        !r ==> *final(surface) == *old(surface),
        r ==> is_moved(
            old(surface).pw@,
            final(surface).pw@,
            old(surface).nu as int,
            old(surface).nv as int,
            AxisMove::Stay,
            AxisMove::HalfTurn,
        ),
{
    if !is_full(&*surface) || surface.nv < 5 || surface.nv % 2 == 0 {
        return false;
    }
    let pw = moved_net(
        surface.pw.as_slice(),
        surface.nu as usize,
        surface.nv as usize,
        AxisMove::Stay,
        AxisMove::HalfTurn,
    );
    surface.pw = pw;
    true
}

/// A surface out of its control points, which stand in columns, and its knots.
pub struct SurfaceParts<F> {
    pub controls: Vec<Vec<[F; 4]>>,
    pub udegree: usize,
    pub vdegree: usize,
    pub uknot: Vec<F>,
    pub vknot: Vec<F>,
}

impl<F> SurfaceParts<F> {
    pub open spec fn height(self) -> int {
        self.controls@[0]@.len() as int
    }

    /// All numbers fit, and the knots reach far enough.
    pub open spec fn fits(self) -> bool {
        &&& 0 < self.controls@.len() <= i32::MAX
        &&& self.height() <= i32::MAX
        &&& self.udegree < i32::MAX
        &&& self.vdegree < i32::MAX
        &&& self.udegree < self.uknot@.len()
        &&& self.vdegree < self.vknot@.len()
        &&& self.controls@.len() < self.uknot@.len()
        &&& self.height() < self.vknot@.len()
    }
}

/// The surface in the layout of the renderer: row after row, each with one
/// control point of every column. There is none where a number does not fit or
/// the knots do not reach far enough.
pub fn surface_to_nsi_data<F: Copy>(parts: SurfaceParts<F>) -> (r: Option<NsiBrepSurfaceData<F>>)
    requires
        forall|u: int|
            0 <= u < parts.controls@.len() ==> (#[trigger] parts.controls@[u])@.len()
                >= parts.height(),
    ensures
        r is Some == parts.fits(),
        match r {
            Some(s) => {
                &&& s.face_index == 0
                &&& s.nu == parts.controls@.len()
                &&& s.nv == parts.height()
                &&& s.uorder == parts.udegree + 1
                &&& s.vorder == parts.vdegree + 1
                &&& s.uknot == parts.uknot
                &&& s.vknot == parts.vknot
                &&& s.umin == parts.uknot@[parts.udegree as int]
                &&& s.umax == parts.uknot@[s.nu as int]
                &&& s.vmin == parts.vknot@[parts.vdegree as int]
                &&& s.vmax == parts.vknot@[s.nv as int]
                &&& s.pw@.len() == s.nu * s.nv
                &&& forall|u: int, v: int|
                    0 <= u < s.nu && 0 <= v < s.nv ==> #[trigger] control(s.pw@, s.nu as int, u, v)
                        == parts.controls@[u]@[v]
                &&& s.trims is None
                &&& s.sampled_trim_fallback_count == 0
            },
            None => true,
        },
{
    let nu: usize = parts.controls.len();
    if nu == 0 || nu > 0x7fff_ffff {
        return None;
    }
    let nv: usize = parts.controls[0].len();
    if nv > 0x7fff_ffff || parts.udegree >= 0x7fff_ffff || parts.vdegree >= 0x7fff_ffff {
        return None;
    }
    if parts.udegree >= parts.uknot.len() || parts.vdegree >= parts.vknot.len() || nu
        >= parts.uknot.len() || nv >= parts.vknot.len() {
        return None;
    }
    let ghost wide = nu as int;
    let mut pw: Vec<[F; 4]> = Vec::new();
    let mut v: usize = 0;
    while v < nv
        invariant
            v <= nv,
            wide == nu,
            nu == parts.controls@.len(),
            forall|a: int|
                0 <= a < parts.controls@.len() ==> (#[trigger] parts.controls@[a])@.len() >= nv,
            pw@.len() == v * nu,
            forall|a: int, b: int|
                0 <= a < nu && 0 <= b < v ==> #[trigger] control(pw@, wide, a, b)
                    == parts.controls@[a]@[b],
        decreases nv - v,
    {
        let mut u: usize = 0;
        while u < nu
            invariant
                u <= nu,
                v < nv,
                wide == nu,
                nu == parts.controls@.len(),
                forall|a: int|
                    0 <= a < parts.controls@.len() ==> (#[trigger] parts.controls@[a])@.len() >= nv,
                pw@.len() == v * nu + u,
                forall|a: int, b: int|
                    0 <= a < nu && 0 <= b && (b < v || b == v && a < u) ==> #[trigger] control(
                        pw@,
                        wide,
                        a,
                        b,
                    ) == parts.controls@[a]@[b],
            decreases nu - u,
        {
            let ghost before = pw@;
            pw.push(parts.controls[u][v]);
            proof {
                assert forall|a: int, b: int|
                    0 <= a < nu && 0 <= b && (b < v || b == v && a < u + 1) implies #[trigger] control(
                    pw@,
                    wide,
                    a,
                    b,
                ) == parts.controls@[a]@[b] by {
                    if b == v && a == u {
                    } else {
                        lemma_earlier(wide, a, b, u as int, v as int);
                        assert(control(pw@, wide, a, b) == control(before, wide, a, b));
                    }
                }
            }
            u += 1;
        }
        assert(v * nu + nu == (v + 1) * nu) by (nonlinear_arith);
        v += 1;
    }
    assert(nv * nu == nu * nv) by (nonlinear_arith);
    let umin = parts.uknot[parts.udegree];
    let umax = parts.uknot[nu];
    let vmin = parts.vknot[parts.vdegree];
    let vmax = parts.vknot[nv];
    Some(
        NsiBrepSurfaceData {
            face_index: 0,
            nu: nu as i32,
            nv: nv as i32,
            uorder: (parts.udegree + 1) as i32,
            vorder: (parts.vdegree + 1) as i32,
            uknot: parts.uknot,
            vknot: parts.vknot,
            umin,
            umax,
            vmin,
            vmax,
            pw,
            trims: None,
            sampled_trim_fallback_count: 0,
        },
    )
}

/// The surfaces of the faces that have one, each with the number of its face.
pub open spec fn numbered<F>(
    surfaces: Seq<Option<NsiBrepSurfaceData<F>>>,
) -> Seq<NsiBrepSurfaceData<F>>
    decreases surfaces.len(),
{
    if surfaces.len() == 0 {
        Seq::empty()
    } else {
        let before = numbered(surfaces.drop_last());
        match surfaces.last() {
            Some(s) => before.push(
                (NsiBrepSurfaceData { face_index: (surfaces.len() - 1) as usize, ..s }),
            ),
            None => before,
        }
    }
}

/// The surfaces of a shell, given for each face what became of it. A face
/// without one is left out, and the others keep the number of their face.
pub fn shell_data_to_nsi_surfaces<F>(faces: Vec<Option<NsiBrepSurfaceData<F>>>) -> (r: Vec<
    NsiBrepSurfaceData<F>,
>)
    ensures
        r@ == numbered(faces@),
{
    let ghost given = faces@;
    let mut rest = reversed(faces);
    let mut out: Vec<NsiBrepSurfaceData<F>> = Vec::new();
    let mut at: usize = 0;
    let count: usize = rest.len();
    assert(given.take(0) =~= Seq::empty());
    while rest.len() > 0
        invariant
            rest@ == given.reverse().take(rest@.len() as int),
            rest@.len() + at == given.len(),
            count == given.len(),
            out@ == numbered(given.take(at as int)),
        decreases rest.len(),
    {
        let ghost before = rest@;
        if let Some(face) = rest.pop() {
            assert(face == given[at as int]);
            proof {
                assert(given.take(at + 1).drop_last() =~= given.take(at as int));
            }
            if let Some(surface) = face {
                out.push(NsiBrepSurfaceData { face_index: at, ..surface });
            }
            at += 1;
        }
    }
    assert(given.take(at as int) =~= given);
    out
}

impl<F> NsiBrepTrimData<F> {
    /// The one sense that stands for all loops: that of the first.
    pub fn scalar_sense_workaround(&self) -> (r: i32)
        ensures
            r == if self.sense@.len() > 0 {
                self.sense@[0]
            } else {
                0
            },
    {
        if self.sense.len() > 0 {
            self.sense[0]
        } else {
            0
        }
    }
}

} // verus!
