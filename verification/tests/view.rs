use monster_step_viewer::display::{
    can_solidify, face_display_color, face_or_shell_color, face_positions, progress_text,
    reloads_for_quality, shading_look, vertex_colors, viewport_width, ClickGuard, ClipPlaneState,
    ClipPlanes, FaceColor, Overlays, Shading, ShadingMode, Switch, Tint, SHADING_FLAG_FLAT,
    SHADING_FLAG_MATCAP,
};
use monster_step_viewer::input::{
    camera_is_due, camera_is_enabled, face_of_triangle, frames_scene, handle_step, motion_ends, motion_start,
    needs_picking, selection_after_click, selection_after_empty_click, view_keys, HandleDrag,
    HandleStep, MotionStart, ViewKeys,
};
use monster_step_viewer::model::{StepBoundaryLoop, StepEdge, StepFace, StepShell};
use monster_step_viewer::panel::{
    panel_placeholder, toggle_selection, PanelChanges, PanelEffects,
};
use monster_step_viewer::recolor::{recolored_faces, ShellColors};
use monster_step_viewer::records::{Hierarchy, Selection};
use monster_step_viewer::selection::{bounding_box_edges, DrawnEdge};

type Shell = StepShell<(), u8, (), ()>;

fn face(id: usize, loops: &[&[usize]]) -> StepFace<()> {
    StepFace {
        id,
        name: ["Face A", "Face B"][id].to_string(),
        mesh: (),
        boundary_loops: loops
            .iter()
            .enumerate()
            .map(|(i, edges)| StepBoundaryLoop { edge_indices: edges.to_vec(), is_outer: i == 0 })
            .collect(),
    }
}

fn edge(id: usize) -> StepEdge<u8> {
    StepEdge { id, curve_type: "Line".to_string(), points: vec![0, 1] }
}

fn shell(id: usize) -> Shell {
    StepShell {
        id,
        name: "Shell".to_string(),
        faces: vec![face(0, &[&[0, 1], &[1]]), face(1, &[])],
        curve_edges: vec![edge(0), edge(1), edge(2)],
        topology: None,
        failed_faces: 0,
        attributes: (),
    }
}

fn hierarchy(shells: &[Shell]) -> Hierarchy<char> {
    let mut h = Hierarchy::new();
    for s in shells {
        h.add_shell(s, &[4, 5], &['r'], 'g', vec![0, 1, 1]);
    }
    h
}

#[test]
fn face_display_color_is_gray_without_random_or_step_colors() {
    let color = face_display_color(7, Some([1.0, 0.8, 0.1]), false, false);
    assert_eq!(color, FaceColor::Neutral);
    assert!(!color.applies());
}

#[test]
fn face_display_color_uses_step_color_when_step_colors_are_on() {
    let step_color = [1.0, 0.0, 0.0];
    let color = face_display_color(7, Some(step_color), false, true);
    assert_eq!(color, FaceColor::Step(step_color));
    assert!(color.applies());
}

#[test]
fn face_display_color_randomizes_faces_without_step_color() {
    let color = face_display_color::<[f32; 3]>(7, None, true, false);
    assert_eq!(color, FaceColor::Random(7));
    assert!(color.applies());
}

#[test]
fn face_display_color_mixes_step_color_with_random_face_color() {
    let step_color = [1.0, 0.8, 0.1];
    let face_7 = face_display_color(7, Some(step_color), true, true);
    let face_8 = face_display_color(8, Some(step_color), true, true);
    assert!(face_7.applies());
    assert!(face_8.applies());
    assert_eq!(face_7, FaceColor::Mixed(step_color, 7));
    assert_ne!(face_7, FaceColor::Step(step_color));
    assert_ne!(face_7, face_8);
}

#[test]
fn bounds_for_face_positions_filters_vertices_by_face_id() {
    let positions = [[0.0, 0.0, 0.0], [2.0, 0.0, 0.0], [2.0, 3.0, 0.0], [-10.0, -10.0, -10.0]];
    let of_face = face_positions(&positions, &[5, 5, 5, 9], 5);
    let mut min = of_face[0];
    let mut max = of_face[0];
    for p in &of_face {
        for i in 0..3 {
            min[i] = f64::min(min[i], p[i]);
            max[i] = f64::max(max[i], p[i]);
        }
    }
    assert_eq!(min, [0.0, 0.0, 0.0]);
    assert_eq!(max, [2.0, 3.0, 0.0]);
    assert!(face_positions(&positions, &[5, 5], 9).is_empty());
}

#[test]
fn shells_are_recorded_with_links() {
    let h = hierarchy(&[shell(0), shell(1)]);
    assert_eq!((h.shells.len(), h.faces.len(), h.edges.len(), h.loops.len()), (2, 4, 6, 4));
    assert_eq!(h.faces[2].source_face_id, 0);
    assert_eq!(h.faces[2].edge_ids, vec![3, 4, 4]);
    assert_eq!(h.faces[2].loop_ids, vec![2, 3]);
    assert_eq!(h.loops[3].face_id, 2);
    assert!(!h.loops[3].is_outer);
    assert_eq!(h.shells[1].face_ids, vec![2, 3]);
    assert_eq!(h.shells[1].standalone_edge_ids, vec![5]);
    assert_eq!(h.edges[4].name, "Edge 2 (Line)");
    assert_eq!((h.faces[0].triangles, h.faces[1].triangles), (4, 5));
    assert_eq!((h.faces[0].ui_color, h.faces[1].ui_color), ('r', 'g'));
    assert!(!h.shells[0].expanded);
}

#[test]
fn a_selection_leads_to_a_face() {
    let h = hierarchy(&[shell(0), shell(1)]);
    assert_eq!(h.selected_face_id(Some(Selection::Face(3))), Some(3));
    assert_eq!(h.selected_face_id(Some(Selection::Loop(3))), Some(2));
    assert_eq!(h.selected_face_id(Some(Selection::Edge(4))), Some(2));
    assert_eq!(h.selected_face_id(Some(Selection::Edge(5))), None);
    assert_eq!(h.selected_face_id(Some(Selection::Shell(0))), None);
    assert_eq!(h.selected_face_id(None), None);
    assert_eq!(h.find_shell(1), Some(1));
    assert_eq!(h.find_face(9), None);
}

#[test]
fn the_face_buffer_marks_selection_hover_and_hiding() {
    let mut h = hierarchy(&[shell(0)]);
    h.faces[1].visible = false;
    h.faces[0].annotation = 2;
    let buffer = h.face_state_buffer(Some(Selection::Face(0)), Some(Selection::Face(1)));
    assert_eq!(buffer, vec![(2 << 3) | 1, 2 | 4]);
}

#[test]
fn edges_of_the_selection_are_highlighted() {
    let mut h = hierarchy(&[shell(0), shell(1)]);
    h.edges[0].visible = false;
    h.shells[1].visible = false;
    let drawn = h.edges_to_draw(Some(Selection::Loop(0)), &vec![shell(0), shell(1)]);
    assert_eq!(
        drawn,
        vec![
            DrawnEdge { shell: 0, edge: 1, highlighted: true },
            DrawnEdge { shell: 0, edge: 2, highlighted: false },
        ]
    );
    assert!(h.is_shell_visible(7));
    assert!(!h.is_shell_visible(1));
    assert!(!h.is_edge_visible(0));
}

#[test]
fn a_box_has_twelve_edges() {
    let edges = bounding_box_edges();
    assert_eq!(edges.len(), 12);
    for (a, b) in edges {
        let apart = (a.x != b.x) as u8 + (a.y != b.y) as u8 + (a.z != b.z) as u8;
        assert_eq!(apart, 1);
    }
}

#[test]
fn the_panel_shows_every_shell() {
    let h = hierarchy(&[shell(0)]);
    let rows = h.panel_rows(Some(Selection::Face(1)));
    assert_eq!(rows.len(), 1);
    assert_eq!(rows[0].title, "Shell (2 faces)");
    assert_eq!(rows[0].faces[0].title, "Face A (4 tris)");
    assert!(rows[0].faces[1].selected);
    assert_eq!(rows[0].standalone_title, "Standalone Curves (1)");
    assert_eq!(rows[0].standalone[0].title, "Edge 3 (Line) (2 pts)");
    assert_eq!(panel_placeholder(0, true), Some("Loading..."));
    assert_eq!(panel_placeholder(0, false), Some("Load a STEP file to see hierarchy"));
    assert_eq!(panel_placeholder(1, false), None);
}

#[test]
fn switches_of_the_panel_are_applied() {
    let mut h = hierarchy(&[shell(0)]);
    let effects = h.apply_panel_changes(&PanelChanges {
        shell_visibility: vec![(0, false)],
        face_visibility: vec![(1, false), (9, false)],
        edge_visibility: Vec::new(),
        loop_trimming: vec![(1, false)],
    });
    assert_eq!(
        effects,
        PanelEffects {
            visibility_changed: true,
            edge_visibility_changed: false,
            retessellate_face: Some(0),
        }
    );
    assert!(!h.shells[0].visible);
    assert!(h.faces[0].visible);
    assert!(!h.faces[1].visible);
    assert!(!h.loops[1].trimming_active);
}

#[test]
fn two_clicks_on_an_item_clear_the_selection() {
    let once = toggle_selection(Some(Selection::Shell(1)), Selection::Face(2));
    assert_eq!(once, Some(Selection::Face(2)));
    assert_eq!(toggle_selection(once, Selection::Face(2)), None);
}

#[test]
fn faces_are_coloured_anew() {
    let colors =
        ShellColors { shell_id: 1, shell: Some('s'), faces: vec![Some('f'), None, Some('x')] };
    assert_eq!(
        recolored_faces(&[4, 5], &colors, false, true),
        vec![(4, FaceColor::Step('f')), (5, FaceColor::Step('s'))]
    );
    let mut h = hierarchy(&[shell(1)]);
    let unknown = ShellColors { shell_id: 9, shell: None, faces: Vec::new() };
    let made = h.rebuild_colors(&[unknown, colors], true, false);
    assert_eq!(made.len(), 1);
    assert_eq!(made[0].record, 0);
    assert_eq!(made[0].faces, vec![(0, FaceColor::Random(0)), (1, FaceColor::Random(1))]);
    h.set_face_color(1, 'n');
    assert_eq!((h.faces[0].ui_color, h.faces[1].ui_color), ('r', 'n'));
    assert_eq!(face_or_shell_color(None, Some('s')), Some('s'));
    assert_eq!(vertex_colors(&[4, 5, 4], 4, &['a', 'b']), vec!['a', 'b', 'a']);
}

#[test]
fn shading_decides_on_the_material() {
    assert_eq!(shading_look(ShadingMode::Flat).flags, SHADING_FLAG_FLAT);
    assert_eq!(shading_look(ShadingMode::Matcap).flags, SHADING_FLAG_MATCAP);
    assert!(shading_look(ShadingMode::Matcap).matcap);
    assert_eq!(shading_look(ShadingMode::XRay).tint, Tint::Glass);
    assert!(!shading_look(ShadingMode::Wireframe).opaque);
    let mut shading = Shading { mode: ShadingMode::Shaded, changed: false };
    shading.after_load();
    assert_eq!(shading.take_change(), None);
    shading.choose_mode(ShadingMode::XRay);
    assert_eq!(shading.take_change(), Some(shading_look(ShadingMode::XRay)));
    assert_eq!(shading.take_change(), None);
    shading.after_load();
    assert!(shading.changed);
}

#[test]
fn three_clicks_bring_a_clip_plane_back() {
    let start = ClipPlaneState::default();
    let on = start.cycled();
    assert!(on.enabled && !on.flip);
    let turned = on.cycled();
    assert!(turned.enabled && turned.flip);
    assert_eq!(turned.cycled(), start);
}

#[test]
fn clip_planes_tell_their_bits() {
    let mut planes = ClipPlanes::new();
    assert_eq!(planes.active(), 0);
    planes.click(0);
    planes.click(2);
    assert_eq!(planes.active(), 0b101);
    assert!(planes.any_enabled());
    assert!(can_solidify(&planes, true));
    assert!(!can_solidify(&planes, false));
    planes.dirty = false;
    planes.move_to(1, 500);
    assert!(!planes.dirty);
    planes.move_to(1, 250);
    assert!(planes.dirty);
    assert_eq!(planes.planes[1].position, 250);
}

#[test]
fn switches_turn_over_one_by_one() {
    let mut overlays = Overlays {
        random_colors: false,
        step_colors: true,
        bounding_box: false,
        wireframe: false,
        isoparams: true,
        polygon_edges: true,
        needs_mesh_rebuild: false,
        settings_dirty: false,
    };
    overlays.click(Switch::BoundingBox);
    assert!(overlays.bounding_box && overlays.settings_dirty && !overlays.needs_mesh_rebuild);
    overlays.click(Switch::RandomColors);
    assert!(overlays.random_colors && overlays.needs_mesh_rebuild);
    assert!(overlays.shows_polygon_edges(ShadingMode::Shaded, true));
    assert!(!overlays.shows_polygon_edges(ShadingMode::Wireframe, true));
    assert!(!overlays.shows_isoparams(false));
    assert!(!overlays.shows_curves(ShadingMode::Shaded));
    assert!(overlays.shows_curves(ShadingMode::Wireframe));
}

#[test]
fn the_view_lies_between_the_panels() {
    assert_eq!(viewport_width(1000, 300, 200), 500);
    assert_eq!(viewport_width(400, 300, 200), 0);
    assert_eq!(progress_text(3, 12, "25"), "Tessellating shell 3/12 (25%)");
    assert_eq!(progress_text(0, 0, "0"), "Parsing STEP file...");
    assert!(reloads_for_quality(false, true, true, false));
    assert!(!reloads_for_quality(true, true, true, false));
}

#[test]
fn a_click_into_the_empty_view_clears_the_selection() {
    let mut guard = ClickGuard::new();
    guard.pressed(Some(5));
    assert_eq!(guard.released(false, false), Some(5));
    guard.pressed(Some(6));
    guard.mesh_consumed = true;
    assert_eq!(guard.released(false, false), None);
    guard.pressed(Some(7));
    assert_eq!(guard.released(true, false), None);
    assert_eq!(selection_after_empty_click(Some(Selection::Face(1)), true), None);
    assert_eq!(
        selection_after_empty_click(Some(Selection::Face(1)), false),
        Some(Selection::Face(1))
    );
}

#[test]
fn a_click_on_a_mesh_selects_its_face() {
    let face = face_of_triangle(1, &[0, 1, 2, 2, 1, 3], &[7, 7, 8, 8]);
    assert_eq!(face, 8);
    assert_eq!(selection_after_click(None, true, Some(face)), Some(Selection::Face(8)));
    assert_eq!(selection_after_click(None, false, Some(face)), None);
    assert_eq!(
        selection_after_click(Some(Selection::Edge(1)), true, None),
        Some(Selection::Edge(1))
    );
}

#[test]
fn the_mouse_moves_the_camera() {
    assert_eq!(motion_start(true, true, true), Some(MotionStart::OrbitZoom));
    assert_eq!(motion_start(false, true, true), Some(MotionStart::PanZoom));
    assert_eq!(motion_start(false, false, true), Some(MotionStart::Zoom));
    assert_eq!(motion_start(false, false, false), None);
    assert!(motion_ends(true, false, false));
    assert!(motion_ends(false, true, true));
    assert!(!motion_ends(false, true, false));
    assert!(needs_picking(false, false, true));
    assert!(!needs_picking(false, false, false));
    assert!(camera_is_enabled(false, false));
    assert!(!camera_is_enabled(true, false));
    assert!(!camera_is_enabled(false, true));
    assert!(camera_is_due(3, 3));
    assert!(!camera_is_due(2, 3));
    assert_eq!(
        view_keys(false, true, false),
        ViewKeys { reset_view: true, center_selection: false }
    );
    assert_eq!(
        view_keys(true, true, true),
        ViewKeys { reset_view: false, center_selection: false }
    );
    assert!(frames_scene(false, true));
    assert!(!frames_scene(true, true));
    assert!(!frames_scene(false, false));
}

#[test]
fn a_clip_plane_has_a_handle_while_it_cuts() {
    assert_eq!(handle_step(true, true, false), HandleStep::Spawn);
    assert_eq!(handle_step(true, true, true), HandleStep::Move);
    assert_eq!(handle_step(true, false, true), HandleStep::Despawn);
    assert_eq!(handle_step(false, true, true), HandleStep::Despawn);
    assert_eq!(handle_step(false, false, false), HandleStep::Nothing);
    let mut drag = HandleDrag::new();
    drag.start(false, true);
    assert!(!drag.dragging);
    drag.start(true, true);
    drag.end(true, false);
    assert!(drag.dragging);
    drag.end(true, true);
    assert!(!drag.dragging);
}
