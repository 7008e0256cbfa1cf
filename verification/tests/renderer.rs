use monster_step_viewer::model::{StepFace, StepShell};
use monster_step_viewer::nsi_overlay::{
    mesh_visibility, pushes_scene, texture_update, OverlaySwitch, PushedVisibility, TextureUpdate,
};
use monster_step_viewer::nsi_scene::{
    create_scene_nodes, NsiCall, NsiRenderState, RenderAction, RenderCommand, RenderThread,
    SetupStep,
};
use monster_step_viewer::records::Hierarchy;

fn told(calls: &[NsiCall]) -> Vec<String> {
    calls
        .iter()
        .map(|c| match c {
            NsiCall::Create { handle, kind } => format!("create {handle} {kind}"),
            NsiCall::Connect { from, to, slot } => format!("connect {from} {to} {slot}"),
            NsiCall::SetMatrix { handle } => format!("matrix {handle}"),
            NsiCall::SetVisibility { handle, visible } => format!("visible {handle} {visible}"),
            NsiCall::SetSurface { handle, surface } => format!("surface {handle} {surface}"),
            NsiCall::Synchronize => "synchronize".to_string(),
        })
        .collect()
}

#[test]
fn a_shell_is_made_once_and_then_changed() {
    let mut state = NsiRenderState::new();
    let first = told(&state.update_shell_brep(2, &[0, 5]));
    assert_eq!(first[0], "create mstpv_brep_xform_shell_2 transform");
    assert!(first.contains(&"create mstpv_brep_surface_shell_2_5 nurbs".to_string()));
    assert!(first.contains(&"surface mstpv_brep_surface_shell_2_5 1".to_string()));
    assert_eq!(first[first.len() - 1], "synchronize");
    let again = told(&state.update_shell_brep(2, &[5]));
    assert!(!again.iter().any(|c| c.starts_with("create")));
    assert!(again.contains(&"visible mstpv_brep_attrib_shell_2_0 false".to_string()));
    let hidden = told(&state.update_shell_brep(2, &[]));
    assert!(hidden.contains(&"visible mstpv_brep_attrib_shell_2_5 false".to_string()));
}

#[test]
fn shells_that_do_not_stay_are_hidden() {
    let mut state = NsiRenderState::new();
    state.update_shell_brep(1, &[0]);
    state.update_shell_brep(2, &[0]);
    assert_eq!(
        told(&state.hide_unretained_shells(&[2])),
        vec!["visible mstpv_brep_attrib_shell_1_0 false".to_string(), "synchronize".to_string()]
    );
    assert!(state.hide_shell_faces(9).is_empty());
    assert_eq!(
        told(&state.set_face_visibilities(&[(1, 0, true), (1, 7, true)])),
        vec!["visible mstpv_brep_attrib_shell_1_0 true".to_string(), "synchronize".to_string()]
    );
    assert!(state.set_face_visibilities(&[(8, 0, true)]).is_empty());
}

#[test]
fn a_render_is_started_and_stopped_once() {
    let mut state = NsiRenderState::new();
    assert_eq!(state.start(), Some(RenderCommand::Start));
    assert_eq!(state.start(), None);
    assert_eq!(state.stop(), Some(RenderCommand::Stop));
    assert_eq!(state.stop(), None);
    assert!(state.update_camera(false, true, false));
    assert!(!state.update_camera(false, false, false));
}

#[test]
fn starts_and_stops_take_turns() {
    let mut thread = RenderThread { running: false };
    assert_eq!(thread.handle(RenderCommand::Synchronize), Vec::new());
    assert_eq!(
        thread.handle(RenderCommand::Start),
        vec![RenderAction::Start, RenderAction::Synchronize]
    );
    assert_eq!(thread.handle(RenderCommand::Start), Vec::new());
    assert_eq!(thread.handle(RenderCommand::Synchronize), vec![RenderAction::Synchronize]);
    assert_eq!(thread.finish(), vec![RenderAction::Stop, RenderAction::Wait]);
    assert_eq!(thread.handle(RenderCommand::Stop), Vec::new());
}

#[test]
fn nodes_are_made_before_they_are_connected() {
    let steps = create_scene_nodes();
    let mut made: Vec<&str> = vec![".root"];
    for step in &steps {
        match step {
            SetupStep::Create { handle, .. } => made.push(handle),
            SetupStep::Connect { from, to, .. } => {
                assert!(made.contains(from) && made.contains(to));
            }
            SetupStep::Assign { handle, .. } => assert!(made.contains(handle)),
        }
    }
    assert!(steps.contains(&SetupStep::Create { handle: "mstpv_camera", kind: "perspectivecamera" }));
}

#[test]
fn the_renderer_is_set_up_on_demand() {
    let mut switch =
        OverlaySwitch { enabled: true, available: true, init_requested: true, has_frame: false };
    assert!(switch.takes_setup(false));
    assert!(!switch.takes_setup(false));
    switch.setup_failed();
    assert!(!switch.enabled);
    assert!(!switch.suppresses_meshes());
    assert!(pushes_scene(true, true, Some(2), Some(1)));
    assert!(!pushes_scene(true, true, Some(2), Some(2)));
    assert!(!pushes_scene(false, true, Some(2), None));
    assert_eq!(mesh_visibility(true, false, Some(true)), Some(false));
    assert_eq!(mesh_visibility(false, true, Some(true)), Some(true));
    assert_eq!(texture_update(None, 4, 4), TextureUpdate::Create);
    assert_eq!(texture_update(Some((4, 4)), 4, 4), TextureUpdate::Rows);
    assert_eq!(texture_update(Some((4, 4)), 8, 4), TextureUpdate::Replace);
}

#[test]
fn changes_are_told_once() {
    let shell: StepShell<(), u8, (), ()> = StepShell {
        id: 4,
        name: String::new(),
        faces: vec![StepFace {
            id: 3,
            name: String::new(),
            mesh: (),
            boundary_loops: Vec::new(),
        }],
        curve_edges: Vec::new(),
        topology: None,
        failed_faces: 0,
        attributes: (),
    };
    let mut h: Hierarchy<u8> = Hierarchy::new();
    h.add_shell(&shell, &[1], &[0], 0, Vec::new());
    h.faces[0].visible = false;
    let mut pushed = PushedVisibility::new();
    let updates = pushed.updates(&h, &vec![4]);
    assert_eq!(updates, vec![(4, 3, false)]);
    pushed.record(&updates);
    assert!(pushed.updates(&h, &vec![4]).is_empty());
    h.faces[0].visible = true;
    assert_eq!(pushed.updates(&h, &vec![4]), vec![(4, 3, true)]);
    pushed.clear();
    assert_eq!(pushed.updates(&h, &vec![4]).len(), 1);
}
