//! What the mouse and the keys do in the view.

use vstd::prelude::*;

use crate::records::Selection;

verus! {

/// A motion of the camera that the mouse starts.
#[derive(Clone, Copy, Debug, PartialEq, Eq, Structural)]
pub enum MotionStart {
    OrbitZoom,
    PanZoom,
    Zoom,
}

/// The motion that starts while the mouse is over the view. A button goes
/// before the wheel, and the one for orbiting before the one for panning.
pub fn motion_start(orbit_pressed: bool, pan_pressed: bool, wheel_moved: bool) -> (r: Option<
    MotionStart,
>)
    ensures
        r == if orbit_pressed {
            Some(MotionStart::OrbitZoom)
        } else if pan_pressed {
            Some(MotionStart::PanZoom)
        } else if wheel_moved {
            Some(MotionStart::Zoom)
        } else {
            None
        },
{
    if orbit_pressed {
        Some(MotionStart::OrbitZoom)
    } else if pan_pressed {
        Some(MotionStart::PanZoom)
    } else if wheel_moved {
        Some(MotionStart::Zoom)
    } else {
        None
    }
}

/// Whether the motion of the camera ends: a button of the two was let go, or
/// it did nothing but zoom and stands still.
pub fn motion_ends(button_released: bool, zooms_only: bool, zoom_stands_still: bool) -> (r: bool)
    ensures
        r == (button_released || zooms_only && zoom_stands_still),
{
    button_released || (zooms_only && zoom_stands_still)
}

/// Whether the mesh under the mouse is looked for. Only the main button needs
/// it.
pub fn needs_picking(pressed: bool, just_pressed: bool, just_released: bool) -> (r: bool)
    ensures
        r == (pressed || just_pressed || just_released),
{
    pressed || just_pressed || just_released
}

/// Whether the mouse moves the camera: no panel wants it and no clip plane is
/// dragged.
pub fn camera_is_enabled(panel_wants_input: bool, dragging: bool) -> (r: bool)
    ensures
        r == (!panel_wants_input && !dragging),
{
    !panel_wants_input && !dragging
}

/// What the keys for the view ask for.
#[derive(Clone, Copy, Debug, PartialEq, Eq, Structural)]
pub struct ViewKeys {
    /// All of the model is brought into view.
    pub reset_view: bool,
    /// The selected face is brought into view.
    pub center_selection: bool,
}

/// What the keys for the view ask for. They do nothing while a panel takes
/// text.
pub fn view_keys(panel_wants_keys: bool, reset_pressed: bool, center_pressed: bool) -> (r: ViewKeys)
    ensures
        r.reset_view == (reset_pressed && !panel_wants_keys),
        r.center_selection == (center_pressed && !panel_wants_keys),
{
    ViewKeys {
        reset_view: reset_pressed && !panel_wants_keys,
        center_selection: center_pressed && !panel_wants_keys,
    }
}

/// Whether the key for it brings all of the model into view from where the
/// camera looks. It does nothing while a panel takes text.
pub fn frames_scene(panel_wants_keys: bool, frame_pressed: bool) -> (r: bool)
    ensures
        r == (frame_pressed && !panel_wants_keys),
{
    frame_pressed && !panel_wants_keys
}

/// Whether the camera can be placed: the meshes of all shells are there.
pub fn camera_is_due(meshes: usize, shells: usize) -> (r: bool)
    ensures
        r == (meshes >= shells),
{
    meshes >= shells
}

/// The face of a triangle: that of its first vertex.
pub fn face_of_triangle(triangle: usize, indices: &[u32], vertex_face_index: &[u32]) -> (r: usize)
    requires
        3 * triangle + 2 < indices@.len(),
        indices@[3 * triangle] < vertex_face_index@.len(),
    ensures
        r == vertex_face_index@[indices@[3 * triangle] as int],
{
    let count: usize = indices.len();
    assert(3 * triangle < count);
    vertex_face_index[indices[3 * triangle] as usize] as usize
}

/// The selection after a click on the mesh of a shell, by the face that was
/// hit. Only the main button selects, and a click that hits no face changes
/// nothing.
pub fn selection_after_click(current: Option<Selection>, main_button: bool, face: Option<usize>)
    -> (r: Option<Selection>)
    ensures
        r == match face {
            Some(id) if main_button => Some(Selection::Face(id)),
            _ => current,
        },
{
    match face {
        Some(id) => if main_button {
            Some(Selection::Face(id))
        } else {
            current
        },
        None => current,
    }
}

/// The selection after a click into the empty view: a click is one where the
/// mouse has moved little between its press and its release.
pub fn selection_after_empty_click(current: Option<Selection>, is_click: bool) -> (r: Option<
    Selection,
>)
    ensures
        r == if is_click {
            None
        } else {
            current
        },
{
    if is_click {
        None
    } else {
        current
    }
}

/// What happens to the handle of a clip plane.
#[derive(Clone, Copy, Debug, PartialEq, Eq, Structural)]
pub enum HandleStep {
    Spawn,
    /// It is brought to where the plane is.
    Move,
    Despawn,
    Nothing,
}

pub open spec fn step_of_handle(wanted: bool, present: bool) -> HandleStep {
    match (wanted, present) {
        (true, true) => HandleStep::Move,
        (true, false) => HandleStep::Spawn,
        (false, true) => HandleStep::Despawn,
        (false, false) => HandleStep::Nothing,
    }
}

/// What happens to the handle of a clip plane: it is wanted while a model is
/// loaded and the plane is on.
pub fn handle_step(model_loaded: bool, plane_enabled: bool, present: bool) -> (r: HandleStep)
    ensures
        r == step_of_handle(model_loaded && plane_enabled, present),
{
    if model_loaded && plane_enabled {
        if present {
            HandleStep::Move
        } else {
            HandleStep::Spawn
        }
    } else if present {
        HandleStep::Despawn
    } else {
        HandleStep::Nothing
    }
}

/// Whether there is a handle after a step.
pub open spec fn handle_after(step: HandleStep, present: bool) -> bool {
    match step {
        HandleStep::Spawn => true,
        HandleStep::Despawn => false,
        _ => present,
    }
}

/// After its step there is a handle exactly where one is wanted.
pub proof fn law_handle_follows_plane(wanted: bool, present: bool)
    ensures
        handle_after(step_of_handle(wanted, present), present) == wanted,
{
}

/// A drag of the handle of a clip plane by the main button.
pub struct HandleDrag {
    pub dragging: bool,
}

impl HandleDrag {
    pub fn new() -> (r: HandleDrag)
        ensures
            !r.dragging,
    {
        HandleDrag { dragging: false }
    }

    /// A drag starts on something.
    pub fn start(&mut self, main_button: bool, on_handle: bool)
        ensures
            final(self).dragging == (old(self).dragging || main_button && on_handle),
    {
        if main_button && on_handle {
            self.dragging = true;
        }
    }

    /// A drag of something ends.
    pub fn end(&mut self, main_button: bool, on_handle: bool)
        ensures
            final(self).dragging == (old(self).dragging && !(main_button && on_handle)),
    {
        if main_button && on_handle {
            self.dragging = false;
        }
    }
}

} // verus!
