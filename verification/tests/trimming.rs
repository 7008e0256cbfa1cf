use monster_step_viewer::nsi_export::{NsiBrepSurfaceData, NsiBrepTrimData};
use monster_step_viewer::surface_net::{
    linear_axis_ends, mirror_surface_u_axis, mirror_surface_v_axis,
    rotate_periodic_surface_u_axis_by_half_period, rotate_periodic_surface_v_axis_by_half_period,
    shell_data_to_nsi_surfaces, surface_axis_is_linear, surface_control_index, surface_dimensions,
    surface_to_nsi_data, SurfaceAxis, SurfaceParts,
};
use monster_step_viewer::trim_loops::{
    reverse_trim_loop, reversed_curve, trim_loops_to_nsi_data, trim_senses_for_mode, turn_loops,
    winding_turns, NsiBrepTrimCurveData, TrimLoop, TrimSenseMode,
};
use monster_step_viewer::trim_pieces::{
    all_or_none, chain_edge_points, closed_piece, connect_edges, frame_loop, joined_pieces,
    long_loops, long_pieces, needs_frame, open_at_jump, pair_step, piece_closure, polyline_knots,
    prefix_closure_loop, rational_quadratic_arc_knots, sampled_trim_fallbacks,
    trim_boundary_to_piece, trim_outcome, turns_only_loop, Corner, PairAxis, PairStep,
    PieceClosure, PointChain, Run, TrimCurveSource, TrimEdgeCurve, TrimOutcome, TrimPiece,
};

type Point = (f64, f64);

fn line(front: Point, back: Point) -> NsiBrepTrimCurveData<f32> {
    NsiBrepTrimCurveData {
        n: 2,
        order: 2,
        knot: vec![0.0, 0.0, 1.0, 1.0],
        min: 0.0,
        max: 1.0,
        u: vec![front.0 as f32, back.0 as f32],
        v: vec![front.1 as f32, back.1 as f32],
        w: vec![1.0, 1.0],
    }
}

fn loop_of(points: &[Point]) -> TrimLoop<f32, Point> {
    TrimLoop {
        curves: points.windows(2).map(|p| line(p[0], p[1])).collect(),
        topology_points: points.to_vec(),
        sampled_fallback_count: 0,
    }
}

fn goes_round_positively(points: &[Point]) -> bool {
    let inner: f64 = points.windows(2).map(|p| (p[1].0 + p[0].0) * (p[1].1 - p[0].1)).sum();
    let (front, back) = (points[0], points[points.len() - 1]);
    inner + (front.0 + back.0) * (front.1 - back.1) > 0.0
}

fn orientations(loops: &[TrimLoop<f32, Point>]) -> Vec<bool> {
    loops.iter().map(|l| goes_round_positively(&l.topology_points)).collect()
}

fn surface(nu: i32, nv: i32, pw: Vec<[f32; 4]>) -> NsiBrepSurfaceData<f32> {
    NsiBrepSurfaceData {
        face_index: 0,
        nu,
        nv,
        uorder: 2,
        vorder: 2,
        uknot: vec![0.0, 0.0, 1.0, 1.0],
        vknot: vec![0.0, 0.0, 1.0, 1.0],
        umin: 0.0,
        umax: 1.0,
        vmin: 0.0,
        vmax: 1.0,
        pw,
        trims: None,
        sampled_trim_fallback_count: 0,
    }
}

fn net(values: &[f32]) -> Vec<[f32; 4]> {
    values.iter().map(|x| [*x, 0.0, 0.0, 1.0]).collect()
}

fn first_coordinates(s: &NsiBrepSurfaceData<f32>) -> Vec<f32> {
    s.pw.iter().map(|p| p[0]).collect()
}

#[test]
fn renderer_v_axis_flip_preserves_scalar_sense_loop_winding() {
    let given = NsiBrepSurfaceData {
        vknot: vec![10.0, 10.0, 14.0, 20.0, 20.0],
        vmin: 10.0,
        vmax: 20.0,
        ..surface(
            2,
            3,
            vec![
                [0.0, 0.0, 10.0, 1.0],
                [1.0, 0.0, 10.0, 1.0],
                [0.0, 0.0, 14.0, 1.0],
                [1.0, 0.0, 14.0, 1.0],
                [0.0, 0.0, 20.0, 1.0],
                [1.0, 0.0, 20.0, 1.0],
            ],
        )
    };
    let outer = [(0.0, 11.0), (1.0, 11.0), (1.0, 13.0), (0.0, 13.0), (0.0, 11.0)];
    let hole = [(0.25, 11.25), (0.25, 12.0), (0.75, 12.0), (0.75, 11.25), (0.25, 11.25)];
    let loops = vec![loop_of(&outer), loop_of(&hole)];
    assert!(goes_round_positively(&loops[0].topology_points));
    assert!(!goes_round_positively(&loops[1].topology_points));

    let (mut flipped, turned) = mirror_surface_v_axis(given);
    assert!(turned);
    let origin = flipped.vmin + flipped.vmax;
    for knot in flipped.vknot.iter_mut() {
        *knot = origin - *knot;
    }
    let loops: Vec<TrimLoop<f32, Point>> = loops
        .into_iter()
        .map(|mut l| {
            for point in l.topology_points.iter_mut() {
                point.1 = origin as f64 - point.1;
            }
            reverse_trim_loop(l)
        })
        .collect();

    assert_eq!(flipped.pw[0][2], 20.0);
    assert_eq!(flipped.pw[2][2], 14.0);
    assert_eq!(flipped.pw[4][2], 10.0);
    assert_eq!(flipped.vknot, vec![10.0, 10.0, 16.0, 20.0, 20.0]);
    assert!(goes_round_positively(&loops[0].topology_points));
    assert!(!goes_round_positively(&loops[1].topology_points));
    let lo = loops[0].topology_points.iter().map(|p| p.1).fold(f64::INFINITY, f64::min);
    let hi = loops[0].topology_points.iter().map(|p| p.1).fold(f64::NEG_INFINITY, f64::max);
    assert_eq!((lo, hi), (17.0, 19.0));
}

#[test]
fn reversed_face_orientation_preserves_scalar_sense_loop_winding() {
    let given = NsiBrepSurfaceData {
        uknot: vec![10.0, 10.0, 14.0, 20.0, 20.0],
        umin: 10.0,
        umax: 20.0,
        ..surface(
            3,
            2,
            vec![
                [10.0, 0.0, 0.0, 1.0],
                [14.0, 0.0, 0.0, 1.0],
                [20.0, 0.0, 0.0, 1.0],
                [10.0, 1.0, 0.0, 1.0],
                [14.0, 1.0, 0.0, 1.0],
                [20.0, 1.0, 0.0, 1.0],
            ],
        )
    };
    let outer = [(11.0, 0.0), (13.0, 0.0), (13.0, 1.0), (11.0, 1.0), (11.0, 0.0)];
    let hole = [(11.25, 0.25), (11.25, 0.75), (12.0, 0.75), (12.0, 0.25), (11.25, 0.25)];
    let loops = vec![loop_of(&outer), loop_of(&hole)];
    assert!(goes_round_positively(&loops[0].topology_points));
    assert!(!goes_round_positively(&loops[1].topology_points));

    let (mut flipped, turned) = mirror_surface_u_axis(given);
    assert!(turned);
    let origin = flipped.umin + flipped.umax;
    for knot in flipped.uknot.iter_mut() {
        *knot = origin - *knot;
    }
    let loops: Vec<TrimLoop<f32, Point>> = loops
        .into_iter()
        .map(|mut l| {
            for point in l.topology_points.iter_mut() {
                point.0 = origin as f64 - point.0;
            }
            reverse_trim_loop(l)
        })
        .collect();

    assert_eq!(flipped.pw[0][0], 20.0);
    assert_eq!(flipped.pw[1][0], 14.0);
    assert_eq!(flipped.pw[2][0], 10.0);
    assert_eq!(flipped.uknot, vec![10.0, 10.0, 16.0, 20.0, 20.0]);
    assert!(goes_round_positively(&loops[0].topology_points));
    assert!(!goes_round_positively(&loops[1].topology_points));
    let lo = loops[0].topology_points.iter().map(|p| p.0).fold(f64::INFINITY, f64::min);
    let hi = loops[0].topology_points.iter().map(|p| p.0).fold(f64::NEG_INFINITY, f64::max);
    assert_eq!((lo, hi), (17.0, 19.0));
}

#[test]
fn exported_surfaces_preserve_source_face_index_after_skips() {
    let surfaces = shell_data_to_nsi_surfaces(vec![None, Some(surface(1, 1, net(&[0.0])))]);
    assert_eq!(surfaces.len(), 1);
    assert_eq!(surfaces[0].face_index, 1);
}

#[test]
fn faces_are_numbered_by_their_place() {
    let surfaces = shell_data_to_nsi_surfaces(vec![
        Some(surface(1, 1, net(&[5.0]))),
        None,
        None,
        Some(surface(1, 1, net(&[7.0]))),
    ]);
    let numbers: Vec<(usize, f32)> =
        surfaces.iter().map(|s| (s.face_index, s.pw[0][0])).collect();
    assert_eq!(numbers, vec![(0, 5.0), (3, 7.0)]);
    assert!(shell_data_to_nsi_surfaces(Vec::<Option<NsiBrepSurfaceData<f32>>>::new()).is_empty());
}

fn one_curve_loop(points: &[Point]) -> TrimLoop<f32, Point> {
    TrimLoop {
        curves: vec![NsiBrepTrimCurveData {
            n: points.len() as i32,
            order: 2,
            knot: vec![0.0; points.len() + 2],
            min: 0.0,
            max: 1.0,
            u: points.iter().map(|p| p.0 as f32).collect(),
            v: points.iter().map(|p| p.1 as f32).collect(),
            w: vec![1.0; points.len()],
        }],
        topology_points: points.to_vec(),
        sampled_fallback_count: 0,
    }
}

fn rectangle_and_hole() -> Vec<TrimLoop<f32, Point>> {
    vec![
        one_curve_loop(&[(0.0, 0.0), (2.0, 0.0), (2.0, 2.0), (0.0, 2.0), (0.0, 0.0)]),
        one_curve_loop(&[(0.5, 0.5), (0.5, 1.0), (1.0, 1.0), (1.0, 0.5), (0.5, 0.5)]),
    ]
}

#[test]
fn multiple_trim_loops_emit_per_loop_trim_sense() {
    let loops = rectangle_and_hole();
    let (sense, turns) = trim_senses_for_mode(&orientations(&loops), TrimSenseMode::PerLoop);
    let loops = turn_loops(loops, &turns);
    let trims = trim_loops_to_nsi_data(&loops, sense);
    assert_eq!(trims.nloops, 2);
    assert_eq!(trims.ncurves, vec![1, 1]);
    assert_eq!(trims.sense, vec![0, 1]);
    assert_eq!(trims.scalar_sense_workaround(), 0);
}

#[test]
fn scalar_compatible_trim_sense_uses_fixed_outside_sense() {
    let loops = rectangle_and_hole();
    let (sense, turns) =
        trim_senses_for_mode(&orientations(&loops), TrimSenseMode::ScalarCompatible);
    let loops = turn_loops(loops, &turns);
    let trims = trim_loops_to_nsi_data(&loops, sense);
    assert_eq!(trims.nloops, 2);
    assert_eq!(trims.ncurves, vec![1, 1]);
    assert_eq!(trims.sense, vec![1, 1]);
    assert_eq!(trims.scalar_sense_workaround(), 1);
    let point = |i: usize| (trims.u[i] / trims.w[i], trims.v[i] / trims.w[i]);
    assert_eq!(point(0), (0.0, 0.0));
    assert_eq!(point(1), (0.0, 2.0));
    let hole_start = trims.n[0] as usize;
    assert_eq!(point(hole_start), (0.5, 0.5));
    assert_eq!(point(hole_start + 1), (0.5, 1.0));
}

#[test]
fn connected_trim_edges_remain_exact_trim_curves() {
    let corners = [(0.0, 0.0), (2.0, 0.0), (2.0, 2.0), (0.0, 2.0)];
    let entries: Vec<TrimEdgeCurve<f32, Point>> = (0..4)
        .map(|i| TrimEdgeCurve {
            curve: line(corners[i], corners[(i + 1) % 4]),
            topology_points: vec![corners[i], corners[(i + 1) % 4]],
            source: TrimCurveSource::Exact,
        })
        .collect();
    let points = chain_edge_points(&entries);
    assert_eq!(points, vec![corners[0], corners[1], corners[2], corners[3], corners[0]]);
    let mut chain = PointChain::new();
    for point in points {
        let near = chain.last() == Some(point);
        chain.offer(point, near);
    }
    let ends_are_near = chain.last() == Some(chain.points[0]);
    let (points, closed_by_topology) = chain.close(ends_are_near).unwrap();
    assert!(!closed_by_topology);
    let piece = trim_boundary_to_piece(entries, points, closed_by_topology);
    assert_eq!(piece.sampled_fallback_count, 0);
    let closed = closed_piece(piece, line(corners[3], corners[0]));
    assert_eq!(closed.topology_points, corners.to_vec());
    let trims = trim_loops_to_nsi_data(&[closed], vec![0]);
    assert_eq!(trims.nloops, 1);
    assert_eq!(trims.ncurves, vec![4]);
    assert_eq!(trims.n, vec![2, 2, 2, 2]);
}

#[test]
fn rational_trim_curve_weights_are_preserved() {
    let curve = NsiBrepTrimCurveData {
        n: 3,
        order: 3,
        knot: vec![0.0, 0.0, 0.0, 1.0, 1.0, 1.0],
        min: 0.0,
        max: 1.0,
        u: vec![0.0, 0.5, 1.0],
        v: vec![0.0, 0.5, 0.0],
        w: vec![1.0f32, 0.5, 1.0],
    };
    let l: TrimLoop<f32, Point> =
        TrimLoop { curves: vec![curve], topology_points: Vec::new(), sampled_fallback_count: 0 };
    let trims = trim_loops_to_nsi_data(&[l], vec![0]);
    assert!(trims.w.iter().any(|w| (*w - 0.5).abs() < f32::EPSILON));
}

#[test]
fn full_ellipse_trim_exports_positive_quadratic_arc_segments() {
    let knots: Vec<f64> =
        rational_quadratic_arc_knots(4).iter().map(|part| *part as f64 / 4.0).collect();
    assert_eq!(
        knots,
        vec![0.0, 0.0, 0.0, 0.25, 0.25, 0.5, 0.5, 0.75, 0.75, 1.0, 1.0, 1.0]
    );
}

#[test]
fn one_arc_has_no_inner_knots() {
    assert_eq!(rational_quadratic_arc_knots(1), vec![0, 0, 0, 1, 1, 1]);
}

#[test]
fn knots_of_a_broken_line() {
    assert_eq!(polyline_knots(4), Some(vec![0, 0, 1, 2, 3, 3]));
    assert_eq!(polyline_knots(2), Some(vec![0, 0, 1, 1]));
    assert_eq!(polyline_knots(1), None);
}

#[test]
fn mirroring_twice_brings_a_net_back() {
    let values = [1.0, 2.0, 3.0, 4.0, 5.0, 6.0];
    let (once, _) = mirror_surface_u_axis(surface(3, 2, net(&values)));
    assert_eq!(first_coordinates(&once), vec![3.0, 2.0, 1.0, 6.0, 5.0, 4.0]);
    let (twice, _) = mirror_surface_u_axis(once);
    assert_eq!(first_coordinates(&twice), values.to_vec());
    let (once, _) = mirror_surface_v_axis(surface(3, 2, net(&values)));
    assert_eq!(first_coordinates(&once), vec![4.0, 5.0, 6.0, 1.0, 2.0, 3.0]);
    let (twice, _) = mirror_surface_v_axis(once);
    assert_eq!(first_coordinates(&twice), values.to_vec());
}

#[test]
fn a_net_of_the_wrong_size_is_not_mirrored() {
    let (same, turned) = mirror_surface_u_axis(surface(3, 2, net(&[1.0, 2.0])));
    assert!(!turned);
    assert_eq!(first_coordinates(&same), vec![1.0, 2.0]);
    assert_eq!(same.uknot, vec![0.0, 0.0, 1.0, 1.0]);
    assert!(!mirror_surface_v_axis(surface(-1, 2, net(&[1.0]))).1);
}

#[test]
fn half_a_turn_keeps_an_axis_closed() {
    let mut round = surface(5, 2, net(&[0.0, 1.0, 2.0, 3.0, 0.0, 5.0, 6.0, 7.0, 8.0, 5.0]));
    assert!(rotate_periodic_surface_u_axis_by_half_period(&mut round));
    assert_eq!(
        first_coordinates(&round),
        vec![2.0, 3.0, 0.0, 1.0, 2.0, 7.0, 8.0, 5.0, 6.0, 7.0]
    );
    let mut round = surface(1, 5, net(&[0.0, 1.0, 2.0, 3.0, 0.0]));
    assert!(rotate_periodic_surface_v_axis_by_half_period(&mut round));
    assert_eq!(first_coordinates(&round), vec![2.0, 3.0, 0.0, 1.0, 2.0]);
    let mut even = surface(4, 1, net(&[0.0, 1.0, 2.0, 3.0]));
    assert!(!rotate_periodic_surface_u_axis_by_half_period(&mut even));
    let mut short = surface(1, 3, net(&[0.0, 1.0, 2.0]));
    assert!(!rotate_periodic_surface_v_axis_by_half_period(&mut short));
}

#[test]
fn control_points_are_found_in_their_rows() {
    let s = surface(2, 3, net(&[0.0; 6]));
    assert_eq!(surface_dimensions(&s), Some((2, 3)));
    assert_eq!(surface_control_index(&s, 1, 2), Some(5));
    assert_eq!(surface_control_index(&s, 2, 0), None);
    assert_eq!(surface_control_index(&s, 0, 3), None);
    assert_eq!(surface_dimensions(&surface(-1, 3, Vec::new())), None);
    assert!(surface_axis_is_linear(&s, SurfaceAxis::U));
    assert!(!surface_axis_is_linear(&s, SurfaceAxis::V));
    assert_eq!(linear_axis_ends(&s, SurfaceAxis::U), vec![(0, 1), (2, 3), (4, 5)]);
    assert_eq!(
        linear_axis_ends(&surface(3, 2, net(&[0.0; 6])), SurfaceAxis::V),
        vec![(0, 3), (1, 4), (2, 5)]
    );
}

fn parts(columns: &[&[f32]]) -> SurfaceParts<f32> {
    SurfaceParts {
        controls: columns.iter().map(|c| net(c)).collect(),
        udegree: 1,
        vdegree: 1,
        uknot: vec![0.0, 0.5, 1.0, 1.0],
        vknot: vec![0.0, 0.25, 0.5, 0.75, 1.0],
    }
}

#[test]
fn columns_of_control_points_become_rows() {
    let s = surface_to_nsi_data(parts(&[&[1.0, 2.0, 3.0], &[4.0, 5.0, 6.0]])).unwrap();
    assert_eq!((s.nu, s.nv, s.uorder, s.vorder), (2, 3, 2, 2));
    assert_eq!(first_coordinates(&s), vec![1.0, 4.0, 2.0, 5.0, 3.0, 6.0]);
    assert_eq!((s.umin, s.umax, s.vmin, s.vmax), (0.5, 1.0, 0.25, 0.75));
    assert!(surface_to_nsi_data(parts(&[])).is_none());
    let mut short = parts(&[&[1.0, 2.0, 3.0], &[4.0, 5.0, 6.0]]);
    short.vknot.truncate(3);
    assert!(surface_to_nsi_data(short).is_none());
}

#[test]
fn turning_a_loop_twice_brings_it_back() {
    let given = loop_of(&[(0.0, 0.0), (1.0, 0.0), (1.0, 1.0)]);
    let once = reverse_trim_loop(given);
    assert_eq!(once.topology_points, vec![(1.0, 1.0), (1.0, 0.0), (0.0, 0.0)]);
    assert_eq!(once.curves[0].v, vec![1.0, 0.0]);
    let twice = reverse_trim_loop(once);
    assert_eq!(twice.topology_points, vec![(0.0, 0.0), (1.0, 0.0), (1.0, 1.0)]);
    assert_eq!(twice.curves[0].u, vec![0.0, 1.0]);
    assert_eq!(twice.curves[1].v, vec![0.0, 1.0]);
    assert_eq!(reversed_curve(line((0.0, 3.0), (2.0, 5.0))).u, vec![2.0, 0.0]);
}

#[test]
fn curves_of_all_loops_stand_one_behind_the_other() {
    let loops = vec![
        loop_of(&[(0.0, 0.0), (1.0, 0.0), (1.0, 1.0)]),
        loop_of(&[(5.0, 5.0), (6.0, 6.0)]),
    ];
    let trims: NsiBrepTrimData<f32> = trim_loops_to_nsi_data(&loops, vec![1, 0]);
    assert_eq!(trims.ncurves, vec![2, 1]);
    assert_eq!(trims.u, vec![0.0, 1.0, 1.0, 1.0, 5.0, 6.0]);
    assert_eq!(trims.v, vec![0.0, 0.0, 0.0, 1.0, 5.0, 6.0]);
    assert_eq!(trims.knot.len(), 12);
    assert_eq!(trims.min, vec![0.0, 0.0, 0.0]);
    assert_eq!(trims.max, vec![1.0, 1.0, 1.0]);
    assert_eq!(trims.sense, vec![1, 0]);
}

#[test]
fn only_the_outer_loop_goes_round_positively() {
    assert_eq!(winding_turns(&[true, true, false], 1), vec![true, false, false]);
    assert_eq!(winding_turns(&[false], 0), vec![true]);
    assert!(turns_only_loop(&[false]));
    assert!(!turns_only_loop(&[true]));
    assert!(!turns_only_loop(&[false, false]));
    assert!(needs_frame(&[false, false], true));
    assert!(!needs_frame(&[false, true], true));
    assert!(!needs_frame(&[], false));
}

#[test]
fn points_close_to_their_forerunner_are_left_out() {
    let mut chain = PointChain::new();
    chain.offer(1, true);
    chain.offer(2, true);
    chain.offer(3, false);
    assert_eq!(chain.last(), Some(3));
    assert_eq!(chain.close(false), Some((vec![1, 3, 1], true)));
    let empty: PointChain<i32> = PointChain::new();
    assert_eq!(empty.last(), None);
    assert_eq!(empty.close(true), None);
}

fn piece(points: &[Point], closed_by_topology: bool, sampled: usize) -> TrimPiece<f32, Point> {
    TrimPiece {
        curves: vec![line(points[0], points[points.len() - 1])],
        topology_points: points.to_vec(),
        closed_by_topology,
        sampled_fallback_count: sampled,
    }
}

#[test]
fn a_piece_that_had_to_be_closed_gets_a_closing_line() {
    let points = [(0.0, 0.0), (1.0, 0.0), (0.0, 0.0)];
    let l = closed_piece(piece(&points, true, 2), line((1.0, 0.0), (0.0, 0.0)));
    assert_eq!(l.curves.len(), 2);
    assert_eq!(l.topology_points, vec![(0.0, 0.0), (1.0, 0.0)]);
    assert_eq!(l.sampled_fallback_count, 2);
    let l = closed_piece(piece(&points, false, 0), line((1.0, 0.0), (0.0, 0.0)));
    assert_eq!(l.curves.len(), 1);
}

#[test]
fn short_pieces_and_loops_are_left_out() {
    let one = piece(&[(0.0, 0.0)], false, 0);
    let two = piece(&[(0.0, 0.0), (1.0, 0.0)], false, 0);
    assert_eq!(long_pieces(vec![one, two]).len(), 1);
    let loops = vec![loop_of(&[(0.0, 0.0), (1.0, 0.0)]), loop_of(&[(0.0, 0.0)])];
    assert_eq!(long_loops(loops).len(), 1);
}

#[test]
fn two_open_pieces_make_a_loop() {
    let first = piece(&[(0.0, 0.0), (1.0, 0.0)], false, 1);
    let second = piece(&[(1.0, 1.0), (0.0, 1.0)], false, 2);
    let l = joined_pieces(
        first,
        second,
        line((1.0, 0.0), (1.0, 1.0)),
        line((0.0, 1.0), (0.0, 0.0)),
    );
    assert_eq!(l.topology_points, vec![(0.0, 0.0), (1.0, 0.0), (1.0, 1.0), (0.0, 1.0)]);
    assert_eq!(l.curves.len(), 4);
    assert_eq!(l.curves[1].v, vec![0.0, 1.0]);
    assert_eq!(l.sampled_fallback_count, 3);
}

#[test]
fn one_open_piece_is_closed_over_two_corners() {
    let closure = [(1.0, 0.0), (1.0, 2.0), (0.0, 2.0), (0.0, 0.0)];
    let lines = vec![
        line(closure[0], closure[1]),
        line(closure[1], closure[2]),
        line(closure[2], closure[3]),
    ];
    let l = prefix_closure_loop(piece(&[(0.0, 0.0), (1.0, 0.0)], false, 0), closure, lines);
    assert_eq!(l.topology_points, vec![(1.0, 0.0), (1.0, 2.0), (0.0, 2.0), (0.0, 0.0)]);
    assert_eq!(l.curves.len(), 4);
    let low = Corner { at_upper_u: false, at_upper_v: false };
    let high = Corner { at_upper_u: true, at_upper_v: true };
    let left = Corner { at_upper_u: false, at_upper_v: true };
    let right = Corner { at_upper_u: true, at_upper_v: false };
    let closed = |axis: usize, after_end: Corner, before_start: Corner| {
        Some(PieceClosure { axis, after_end, before_start })
    };
    assert_eq!(piece_closure(Run::Ahead, Run::Back), closed(0, high, left));
    assert_eq!(piece_closure(Run::Back, Run::Level), closed(0, low, right));
    assert_eq!(piece_closure(Run::Level, Run::Ahead), closed(1, left, low));
    assert_eq!(piece_closure(Run::Level, Run::Back), closed(1, right, high));
    assert_eq!(piece_closure(Run::Level, Run::Level), None);
}

#[test]
fn a_frame_runs_round_the_surface() {
    let corners = [(0.0, 0.0), (1.0, 0.0), (1.0, 1.0), (0.0, 1.0)];
    let lines = (0..4).map(|i| line(corners[i], corners[(i + 1) % 4])).collect();
    let l = frame_loop(corners, lines);
    assert_eq!(l.topology_points, corners.to_vec());
    assert_eq!(l.curves.len(), 4);
    assert_eq!(connect_edges(&[vec![1, 2], Vec::new(), vec![2, 3, 1]]), vec![1, 2, 3]);
}

#[test]
fn two_pieces_are_aligned_along_the_axis_on_which_both_run() {
    let still = PairAxis { both_run: false, has_period: true, has_range: true };
    let round = PairAxis { both_run: true, has_period: true, has_range: true };
    let ranged = PairAxis { both_run: true, has_period: false, has_range: true };
    let endless = PairAxis { both_run: true, has_period: false, has_range: false };
    assert_eq!(pair_step(round, ranged), PairStep::MoveByPeriod(0));
    assert_eq!(pair_step(ranged, round), PairStep::BringIntoRange(0));
    assert_eq!(pair_step(endless, round), PairStep::Keep);
    assert_eq!(pair_step(still, round), PairStep::MoveByPeriod(1));
    assert_eq!(pair_step(still, ranged), PairStep::BringIntoRange(1));
    assert_eq!(pair_step(still, still), PairStep::Keep);
}

#[test]
fn a_closed_row_is_opened_at_the_seam() {
    assert_eq!(open_at_jump(&[0, 1, 2, 3], 1, 20, 10), vec![20, 2, 3, 0, 1, 10]);
}

#[test]
fn boundaries_are_read_as_a_whole_or_not_at_all() {
    assert_eq!(all_or_none(vec![Some(1), Some(2)]), Some(vec![1, 2]));
    assert_eq!(all_or_none(vec![Some(1), None]), None);
    assert!(matches!(trim_outcome::<i32>(0, Some(Vec::new())), TrimOutcome::Untrimmed));
    assert!(matches!(trim_outcome::<i32>(1, Some(Vec::new())), TrimOutcome::Incomplete));
    assert!(matches!(trim_outcome::<i32>(1, None), TrimOutcome::Incomplete));
    assert!(matches!(trim_outcome(1, Some(vec![3])), TrimOutcome::Trimmed(l) if l == vec![3]));
}

#[test]
fn sampled_edges_are_counted() {
    let entry = |source: TrimCurveSource| TrimEdgeCurve {
        curve: line((0.0, 0.0), (1.0, 0.0)),
        topology_points: vec![(0.0, 0.0)],
        source,
    };
    let entries = vec![entry(TrimCurveSource::SampledFallback), entry(TrimCurveSource::Exact)];
    let piece = trim_boundary_to_piece(entries, vec![(0.0, 0.0), (1.0, 0.0)], false);
    assert_eq!(piece.sampled_fallback_count, 1);
    assert_eq!(piece.curves.len(), 2);
    let mut a = loop_of(&[(0.0, 0.0), (1.0, 0.0)]);
    a.sampled_fallback_count = 2;
    let mut b = loop_of(&[(0.0, 0.0), (1.0, 0.0)]);
    b.sampled_fallback_count = 3;
    assert_eq!(sampled_trim_fallbacks(&[a, b]), 5);
}
