//! How the scene is shown: shading, clip planes, overlays and colours.

use vstd::prelude::*;

use crate::text;
use crate::text::push_decimal;

verus! {

/// Bits of the shading of a material, as the shader reads them.
pub const SHADING_FLAG_MATCAP: u32 = 1;

pub const SHADING_FLAG_FLAT: u32 = 2;

/// A style of shading.
#[derive(Clone, Copy, Debug, PartialEq, Eq, Structural)]
pub enum ShadingMode {
    Shaded,
    Flat,
    Matcap,
    XRay,
    Wireframe,
}

impl Default for ShadingMode {
    fn default() -> (r: ShadingMode)
        ensures
            r == ShadingMode::Shaded,
    {
        ShadingMode::Shaded
    }
}

/// The base colour of a material.
#[derive(Clone, Copy, Debug, PartialEq, Eq, Structural)]
pub enum Tint {
    White,
    /// Grey that lets most of what is behind it through.
    Glass,
    /// Black that is hardly seen.
    Faint,
}

/// What a style of shading makes of a material.
#[derive(Clone, Copy, Debug, PartialEq, Eq, Structural)]
pub struct ShadingLook {
    pub opaque: bool,
    /// Whether the back of a face is left out.
    pub cull_back: bool,
    pub tint: Tint,
    pub flags: u32,
    pub matcap: bool,
}

pub open spec fn look_of(mode: ShadingMode) -> ShadingLook {
    let solid = mode != ShadingMode::XRay && mode != ShadingMode::Wireframe;
    ShadingLook {
        opaque: solid,
        cull_back: solid,
        tint: match mode {
            ShadingMode::XRay => Tint::Glass,
            ShadingMode::Wireframe => Tint::Faint,
            _ => Tint::White,
        },
        flags: match mode {
            ShadingMode::Flat => SHADING_FLAG_FLAT,
            ShadingMode::Matcap => SHADING_FLAG_MATCAP,
            _ => 0,
        },
        matcap: mode == ShadingMode::Matcap,
    }
}

/// What a style of shading makes of a material.
pub fn shading_look(mode: ShadingMode) -> (r: ShadingLook)
    ensures
        r == look_of(mode),
{
    match mode {
        ShadingMode::Shaded => ShadingLook {
            opaque: true,
            cull_back: true,
            tint: Tint::White,
            flags: 0,
            matcap: false,
        },
        ShadingMode::Flat => ShadingLook {
            opaque: true,
            cull_back: true,
            tint: Tint::White,
            flags: SHADING_FLAG_FLAT,
            matcap: false,
        },
        ShadingMode::XRay => ShadingLook {
            opaque: false,
            cull_back: false,
            tint: Tint::Glass,
            flags: 0,
            matcap: false,
        },
        ShadingMode::Wireframe => ShadingLook {
            opaque: false,
            cull_back: false,
            tint: Tint::Faint,
            flags: 0,
            matcap: false,
        },
        ShadingMode::Matcap => ShadingLook {
            opaque: true,
            cull_back: true,
            tint: Tint::White,
            flags: SHADING_FLAG_MATCAP,
            matcap: true,
        },
    }
}

/// The style of shading, and what is still to be done about it.
pub struct Shading {
    pub mode: ShadingMode,
    /// Whether the materials are still to be changed.
    pub changed: bool,
}

impl Shading {
    /// Another style is chosen.
    pub fn choose_mode(&mut self, mode: ShadingMode)
        ensures
            *final(self) == (Shading { mode, changed: old(self).changed || mode != old(self).mode }),
    {
        if self.mode != mode {
            self.mode = mode;
            self.changed = true;
        }
    }

    /// New materials have come with a loaded file.
    pub fn after_load(&mut self)
        ensures
            *final(self) == (Shading {
                mode: old(self).mode,
                changed: old(self).changed || old(self).mode != ShadingMode::Shaded,
            }),
    {
        if self.mode != ShadingMode::Shaded {
            self.changed = true;
        }
    }

    /// What the materials are to be changed to, if they are.
    pub fn take_change(&mut self) -> (r: Option<ShadingLook>)
        ensures
            r == (if old(self).changed {
                Some(look_of(old(self).mode))
            } else {
                None
            }),
            *final(self) == (Shading { mode: old(self).mode, changed: false }),
    {
        if self.changed {
            self.changed = false;
            Some(shading_look(self.mode))
        } else {
            None
        }
    }
}

/// A plane that cuts the scene across an axis.
#[derive(Clone, Copy, Debug, PartialEq, Eq, Structural)]
pub struct ClipPlaneState {
    pub enabled: bool,
    /// Where it stands, in thousandths of the extent of the scene.
    pub position: u16,
    /// Whether the other side is cut off.
    pub flip: bool,
}

impl Default for ClipPlaneState {
    fn default() -> (r: ClipPlaneState)
        ensures
            r == (ClipPlaneState { enabled: false, position: 500, flip: false }),
    {
        ClipPlaneState { enabled: false, position: 500, flip: false }
    }
}

impl ClipPlaneState {
    /// Off, then along the axis, then against it, then off.
    pub open spec fn next(self) -> ClipPlaneState {
        if !self.enabled {
            ClipPlaneState { enabled: true, flip: false, ..self }
        } else if !self.flip {
            ClipPlaneState { flip: true, ..self }
        } else {
            ClipPlaneState { enabled: false, flip: false, ..self }
        }
    }

    /// The state after a click on the switch of the axis.
    pub fn cycled(self) -> (r: ClipPlaneState)
        ensures
            r == self.next(),
    {
        if !self.enabled {
            ClipPlaneState { enabled: true, position: self.position, flip: false }
        } else if !self.flip {
            ClipPlaneState { enabled: true, position: self.position, flip: true }
        } else {
            ClipPlaneState { enabled: false, position: self.position, flip: false }
        }
    }
}

/// Three clicks on the switch of an axis bring a plane back to where it was,
/// if it is not both off and turned; its position stays through each.
pub proof fn law_three_clicks_return(plane: ClipPlaneState)
    requires
        plane.enabled || !plane.flip,
    ensures
        plane.next().next().next() == plane,
        plane.next().position == plane.position,
{
}

/// The planes of the three axes.
pub struct ClipPlanes {
    pub planes: [ClipPlaneState; 3],
    /// Whether the materials are still to be told.
    pub dirty: bool,
}

pub open spec fn plane_bit(enabled: bool, axis: int) -> u32 {
    if !enabled {
        0
    } else if axis == 0 {
        1
    } else if axis == 1 {
        2
    } else {
        4
    }
}

/// A bit for each axis whose plane cuts.
pub open spec fn active_bits(planes: Seq<ClipPlaneState>) -> u32 {
    plane_bit(planes[0].enabled, 0) | plane_bit(planes[1].enabled, 1) | plane_bit(
        planes[2].enabled,
        2,
    )
}

/// The bits tell of each axis whether its plane cuts.
pub proof fn law_clip_bits_read_back(planes: Seq<ClipPlaneState>)
    requires
        planes.len() == 3,
    ensures
        (active_bits(planes) & 1 != 0) == planes[0].enabled,
        (active_bits(planes) & 2 != 0) == planes[1].enabled,
        (active_bits(planes) & 4 != 0) == planes[2].enabled,
        active_bits(planes) < 8,
{
    let a = plane_bit(planes[0].enabled, 0);
    let b = plane_bit(planes[1].enabled, 1);
    let c = plane_bit(planes[2].enabled, 2);
    assert(((a | b | c) & 1 != 0) == (a == 1) && ((a | b | c) & 2 != 0) == (b == 2) && ((a | b | c)
        & 4 != 0) == (c == 4) && (a | b | c) < 8) by (bit_vector)
        requires
            a == 0 || a == 1,
            b == 0 || b == 2,
            c == 0 || c == 4,
    ;
}

impl ClipPlanes {
    pub fn new() -> (r: ClipPlanes)
        ensures
            !r.dirty,
            forall|i: int|
                0 <= i < 3 ==> #[trigger] r.planes@[i] == (ClipPlaneState {
                    enabled: false,
                    position: 500,
                    flip: false,
                }),
    {
        let off = ClipPlaneState { enabled: false, position: 500, flip: false };
        ClipPlanes { planes: [off, off, off], dirty: false }
    }

    /// A click on the switch of an axis.
    pub fn click(&mut self, axis: usize)
        requires
            axis < 3,
        ensures
            final(self).planes@ == old(self).planes@.update(
                axis as int,
                old(self).planes@[axis as int].next(),
            ),
            final(self).dirty,
    {
        let next = self.planes[axis].cycled();
        self.planes[axis] = next;
        self.dirty = true;
    }

    /// A plane is moved. The materials are told only if it has.
    pub fn move_to(&mut self, axis: usize, position: u16)
        requires
            axis < 3,
        ensures
            final(self).planes@ == old(self).planes@.update(
                axis as int,
                ClipPlaneState { position, ..old(self).planes@[axis as int] },
            ),
            final(self).dirty == (old(self).dirty || old(self).planes@[axis as int].position
                != position),
    {
        let plane = self.planes[axis];
        if plane.position != position {
            self.planes[axis] =
            ClipPlaneState { enabled: plane.enabled, position, flip: plane.flip };
            self.dirty = true;
        } else {
            assert(self.planes@ =~= old(self).planes@.update(
                axis as int,
                ClipPlaneState { position, ..plane },
            ));
        }
    }

    /// A bit for each axis whose plane cuts.
    pub fn active(&self) -> (r: u32)
        ensures
            r == active_bits(self.planes@),
    {
        let x: u32 = if self.planes[0].enabled {
            1
        } else {
            0
        };
        let y: u32 = if self.planes[1].enabled {
            2
        } else {
            0
        };
        let z: u32 = if self.planes[2].enabled {
            4
        } else {
            0
        };
        x | y | z
    }

    /// Whether some plane cuts.
    pub fn any_enabled(&self) -> (r: bool)
        ensures
            r == exists|i: int| 0 <= i < 3 && (#[trigger] self.planes@[i]).enabled,
    {
        self.planes[0].enabled || self.planes[1].enabled || self.planes[2].enabled
    }
}

/// Tells whether the cut can be made into a solid: some plane cuts, and the
/// file has a solid.
pub fn can_solidify(planes: &ClipPlanes, has_solid_topology: bool) -> (r: bool)
    ensures
        r == (has_solid_topology && exists|i: int|
            0 <= i < 3 && (#[trigger] planes.planes@[i]).enabled),
{
    planes.any_enabled() && has_solid_topology
}

/// A switch of the toolbar.
#[derive(Clone, Copy, Debug, PartialEq, Eq, Structural)]
pub enum Switch {
    RandomColors,
    StepColors,
    BoundingBox,
    Wireframe,
    Isoparams,
    PolygonEdges,
}

/// What the switches of the toolbar show.
pub struct Overlays {
    pub random_colors: bool,
    pub step_colors: bool,
    pub bounding_box: bool,
    pub wireframe: bool,
    pub isoparams: bool,
    pub polygon_edges: bool,
    /// Whether the colours of the meshes are still to be changed.
    pub needs_mesh_rebuild: bool,
    /// Whether the settings are still to be saved.
    pub settings_dirty: bool,
}

impl Overlays {
    pub open spec fn is_on(self, switch: Switch) -> bool {
        match switch {
            Switch::RandomColors => self.random_colors,
            Switch::StepColors => self.step_colors,
            Switch::BoundingBox => self.bounding_box,
            Switch::Wireframe => self.wireframe,
            Switch::Isoparams => self.isoparams,
            Switch::PolygonEdges => self.polygon_edges,
        }
    }

    /// A click on a switch turns it over and leaves the others. Switches of
    /// colours have the meshes coloured anew.
    pub fn click(&mut self, switch: Switch)
        ensures
            forall|s: Switch| #[trigger]
                final(self).is_on(s) == (if s == switch {
                    !old(self).is_on(s)
                } else {
                    old(self).is_on(s)
                }),
            final(self).needs_mesh_rebuild == (old(self).needs_mesh_rebuild || switch
                == Switch::RandomColors || switch == Switch::StepColors),
            final(self).settings_dirty,
    {
        match switch {
            Switch::RandomColors => {
                self.random_colors = !self.random_colors;
                self.needs_mesh_rebuild = true;
            },
            Switch::StepColors => {
                self.step_colors = !self.step_colors;
                self.needs_mesh_rebuild = true;
            },
            Switch::BoundingBox => {
                self.bounding_box = !self.bounding_box;
            },
            Switch::Wireframe => {
                self.wireframe = !self.wireframe;
            },
            Switch::Isoparams => {
                self.isoparams = !self.isoparams;
            },
            Switch::PolygonEdges => {
                self.polygon_edges = !self.polygon_edges;
            },
        }
        self.settings_dirty = true;
    }

    /// Whether the edges of the triangles of a shell are shown. Shading as
    /// wireframe leaves them out.
    pub fn shows_polygon_edges(&self, mode: ShadingMode, shell_visible: bool) -> (r: bool)
        ensures
            r == (self.polygon_edges && mode != ShadingMode::Wireframe && shell_visible),
    {
        self.polygon_edges && mode != ShadingMode::Wireframe && shell_visible
    }

    /// Whether the parameter lines of a shell are shown.
    pub fn shows_isoparams(&self, shell_visible: bool) -> (r: bool)
        ensures
            r == (self.isoparams && shell_visible),
    {
        self.isoparams && shell_visible
    }

    /// Whether the edge curves are shown.
    pub fn shows_curves(&self, mode: ShadingMode) -> (r: bool)
        ensures
            r == (self.wireframe || mode == ShadingMode::Wireframe),
    {
        self.wireframe || mode == ShadingMode::Wireframe
    }
}

/// The colour that a face is shown in.
#[derive(Debug, PartialEq)]
pub enum FaceColor<C> {
    /// The neutral grey of a face without colour.
    Neutral,
    /// The colour that the file gives.
    Step(C),
    /// The colour that belongs to the number of the face.
    Random(usize),
    /// A mixture of the two.
    Mixed(C, usize),
}

pub open spec fn shown_color<C>(
    face_id: usize,
    step_color: Option<C>,
    random: bool,
    step: bool,
) -> FaceColor<C> {
    match step_color {
        Some(c) if step => if random {
            FaceColor::Mixed(c, face_id)
        } else {
            FaceColor::Step(c)
        },
        _ => if random {
            FaceColor::Random(face_id)
        } else {
            FaceColor::Neutral
        },
    }
}

/// The colour that a face is shown in, by the switches of colours.
pub fn face_display_color<C>(
    face_id: usize,
    step_color: Option<C>,
    use_random_colors: bool,
    use_step_colors: bool,
) -> (r: FaceColor<C>)
    ensures
        r == shown_color(face_id, step_color, use_random_colors, use_step_colors),
{
    match step_color {
        Some(c) => {
            if use_step_colors {
                if use_random_colors {
                    FaceColor::Mixed(c, face_id)
                } else {
                    FaceColor::Step(c)
                }
            } else if use_random_colors {
                FaceColor::Random(face_id)
            } else {
                FaceColor::Neutral
            }
        },
        None => {
            if use_random_colors {
                FaceColor::Random(face_id)
            } else {
                FaceColor::Neutral
            }
        },
    }
}

impl<C> FaceColor<C> {
    /// Whether the face has a colour of its own.
    pub fn applies(&self) -> (r: bool)
        ensures
            r == !(self is Neutral),
    {
        match self {
            FaceColor::Neutral => false,
            _ => true,
        }
    }
}

/// The colour that counts for a face: its own, or that of its shell.
pub fn face_or_shell_color<C>(face: Option<C>, shell: Option<C>) -> (r: Option<C>)
    ensures
        r == (if face is Some {
            face
        } else {
            shell
        }),
{
    match face {
        Some(c) => Some(c),
        None => shell,
    }
}

/// The colours of the vertices of a shell, from those of its faces. The faces
/// are numbered from `base`.
pub fn vertex_colors<C: Copy>(face_index: &[u32], base: usize, colors: &[C]) -> (r: Vec<C>)
    requires
        forall|v: int|
            0 <= v < face_index@.len() ==> base <= #[trigger] face_index@[v] < base + colors@.len(),
    ensures
        r@.len() == face_index@.len(),
        forall|v: int|
            0 <= v < r@.len() ==> #[trigger] r@[v] == colors@[face_index@[v] - base],
{
    let mut out: Vec<C> = Vec::new();
    let mut v: usize = 0;
    while v < face_index.len()
        invariant
            v <= face_index.len(),
            out@.len() == v,
            forall|k: int|
                0 <= k < face_index@.len() ==> base <= #[trigger] face_index@[k] < base
                    + colors@.len(),
            forall|k: int| 0 <= k < v ==> #[trigger] out@[k] == colors@[face_index@[k] - base],
        decreases face_index.len() - v,
    {
        assert(base <= face_index@[v as int] < base + colors@.len());
        let at: usize = face_index[v] as usize - base;
        out.push(colors[at]);
        v += 1;
    }
    out
}

/// The positions of the vertices of a face.
pub open spec fn positions_of<V>(positions: Seq<V>, face_index: Seq<u32>, face: usize) -> Seq<V>
    decreases positions.len(),
{
    if positions.len() == 0 {
        Seq::empty()
    } else {
        let before = positions_of(positions.drop_last(), face_index, face);
        let n = positions.len() - 1;
        if n < face_index.len() && face_index[n] == face {
            before.push(positions[n])
        } else {
            before
        }
    }
}

/// The positions of the vertices of a face, in their order. A vertex without
/// a number or a number without a vertex is passed over.
pub fn face_positions<V: Copy>(positions: &[V], face_index: &[u32], face: usize) -> (r: Vec<V>)
    ensures
        r@ == positions_of(positions@, face_index@, face),
{
    let mut out: Vec<V> = Vec::new();
    let mut i: usize = 0;
    while i < positions.len()
        invariant
            i <= positions.len(),
            out@ == positions_of(positions@.take(i as int), face_index@, face),
        decreases positions.len() - i,
    {
        assert(positions@.take(i + 1).drop_last() =~= positions@.take(i as int));
        if i < face_index.len() && face_index[i] as usize == face {
            out.push(positions[i]);
        }
        i += 1;
    }
    assert(positions@.take(positions.len() as int) =~= positions@);
    out
}

/// The width of the view between the panels.
pub fn viewport_width(window: u32, left: u32, right: u32) -> (r: u32)
    ensures
        r == (if window >= left + right {
            (window - left - right) as u32
        } else {
            0
        }),
{
    window.saturating_sub(left).saturating_sub(right)
}

/// What is shown of the progress of a load.
pub open spec fn progress_words(current: nat, total: nat, percent: Seq<char>) -> Seq<char> {
    if total > 0 {
        "Tessellating shell "@ + text::decimal(current) + "/"@ + text::decimal(total) + " ("@
            + percent + "%)"@
    } else {
        "Parsing STEP file..."@
    }
}

/// What is shown of the progress of a load.
pub fn progress_text(current: usize, total: usize, percent: &str) -> (r: String)
    ensures
        r@ == progress_words(current as nat, total as nat, percent@),
{
    let mut out = String::new();
    if total > 0 {
        out.append("Tessellating shell ");
        push_decimal(&mut out, current as u64);
        out.append("/");
        push_decimal(&mut out, total as u64);
        out.append(" (");
        out.append(percent);
        out.append("%)");
    } else {
        out.append("Parsing STEP file...");
    }
    assert(out@ =~= progress_words(current as nat, total as nat, percent@));
    out
}

/// Tells whether a file is to be loaded anew because its quality has changed.
pub fn reloads_for_quality(dragged: bool, changed: bool, loaded: bool, loading: bool) -> (r: bool)
    ensures
        r == (!dragged && changed && loaded && !loading),
{
    !dragged && changed && loaded && !loading
}

/// A press of the mouse in the view.
pub struct ClickGuard<V> {
    pub press: Option<V>,
    /// Whether a mesh has taken the click.
    pub mesh_consumed: bool,
}

impl<V> ClickGuard<V> {
    pub fn new() -> (r: ClickGuard<V>)
        ensures
            r == (ClickGuard::<V> { press: None, mesh_consumed: false }),
    {
        ClickGuard { press: None, mesh_consumed: false }
    }

    /// The button goes down.
    pub fn pressed(&mut self, at: Option<V>)
        ensures
            *final(self) == (ClickGuard { press: at, mesh_consumed: false }),
    {
        self.press = at;
        self.mesh_consumed = false;
    }

    /// The button comes up. Gives back where it went down if the click is for
    /// the empty view: no mesh took it, nothing is dragged, and no panel wants
    /// it.
    pub fn released(&mut self, dragging: bool, panel: bool) -> (r: Option<V>)
        ensures
            *final(self) == (ClickGuard::<V> { press: None, mesh_consumed: false }),
            r == (if old(self).mesh_consumed || dragging || panel {
                None
            } else {
                old(self).press
            }),
    {
        let press = self.press.take();
        let consumed = self.mesh_consumed;
        self.mesh_consumed = false;
        if consumed || dragging || panel {
            None
        } else {
            press
        }
    }
}

} // verus!
