//! From the text of a STEP file to shells: what is to be converted, and how
//! the tessellated parts become shells.

use std::collections::HashMap;
use vstd::prelude::*;

use crate::assembly;
use crate::assembly::{parse_assembly_transforms, Assembly};
use crate::colors;
use crate::colors::parse_step_colors;
use crate::entities;
use crate::exchange;
use crate::exchange::{open_step, OpenFailure, OpenedStep};
use crate::graph::Step;
use crate::model::{EdgeModel, FaceModel, LoopModel};
use crate::model::{
    StepBoundaryLoop, StepEdge, StepFace, StepScene, StepShell, StepTopology,
};
use crate::numbers;
use crate::order::reversed;
use crate::parameter::StepMetadata;
use crate::parsing;
use crate::parsing::RealTriple;
use crate::text;
use crate::text::push_decimal;

verus! {

broadcast use vstd::std_specs::hash::group_hash_axioms;

/// What is known of a shell before it is converted.
pub struct ShellPlan {
    /// Its place among the shells.
    pub local_idx: usize,
    /// The number of its entity.
    pub entity: u64,
    /// Its colour, if the file gives one.
    pub color: Option<RealTriple>,
    /// The steps that place it, if the assembly gives any.
    pub steps: Option<Vec<Step>>,
    /// The solid that it bounds.
    pub solid: Option<u64>,
}

/// What is known of a file before its shells are converted.
pub struct LoadPlan {
    pub opened: OpenedStep,
    pub assembly: Assembly,
    pub shells: Vec<ShellPlan>,
}

pub ghost struct ShellPlanModel {
    pub local_idx: int,
    pub entity: u64,
    pub color: Option<(Seq<char>, Seq<char>, Seq<char>)>,
    pub steps: Option<Seq<Step>>,
    pub solid: Option<u64>,
}

impl View for ShellPlan {
    type V = ShellPlanModel;

    open spec fn view(&self) -> ShellPlanModel {
        ShellPlanModel {
            local_idx: self.local_idx as int,
            entity: self.entity,
            color: match self.color {
                Some(c) => Some(c@),
                None => None,
            },
            steps: match self.steps {
                Some(s) => Some(s@),
                None => None,
            },
            solid: self.solid,
        }
    }
}

/// The plan of the shell at a place: its entity is the one at that place, and
/// its colour, its steps and its solid are those that the file gives to that
/// entity.
pub open spec fn shell_plan(
    at: int,
    ids: Seq<u64>,
    colours: Map<u64, (Seq<char>, Seq<char>, Seq<char>)>,
    words: Map<u64, Seq<Step>>,
    owners: Map<u64, u64>,
) -> ShellPlanModel {
    ShellPlanModel {
        local_idx: at,
        entity: ids[at],
        color: colors::lookup(colours, ids[at]),
        steps: colors::lookup(words, ids[at]),
        solid: colors::lookup(owners, ids[at]),
    }
}

/// The plan is that of the text.
pub open spec fn plans(plan: LoadPlan, raw: Seq<char>) -> bool {
    &&& plan.assembly.tables() == assembly::assembly_tables(parsing::file_entities(raw))
    &&& exists|reached: Map<u64, Seq<Step>>| #[trigger]
        plan.assembly.tables().graph().ends_with(reached) && plan.assembly.words()
            == plan.assembly.tables().shell_words(reached)
    &&& plan.shells@.len() == plan.opened.shell_ids@.len()
    &&& forall|i: int|
        0 <= i < plan.shells@.len() ==> (#[trigger] plan.shells@[i])@ == shell_plan(
            i,
            plan.opened.shell_ids@,
            colors::file_colours(raw),
            plan.assembly.words(),
            plan.opened.owners@,
        )
}

/// What is to be converted: the shells in the order of their numbers, each
/// with its colour, its placement and the solid that it bounds.
pub fn plan_load(raw: &str) -> (r: Result<LoadPlan, OpenFailure>)
    requires
        numbers::readable(raw@),
    ensures
        match r {
            Ok(plan) => {
                &&& exchange::parsed_exchange(raw@) matches Some(e) && exchange::opens(
                    plan.opened,
                    e,
                )
                &&& plans(plan, raw@)
            },
            Err(OpenFailure::Parse) => exchange::parsed_exchange(raw@) is None,
            Err(OpenFailure::NoData) => exchange::parsed_exchange(raw@) matches Some(e)
                && e.sections.len() == 0,
            Err(OpenFailure::Unreadable) => exchange::parsed_exchange(raw@) matches Some(e)
                && e.sections.len() > 0 && !entities::section_reads(e.sections[0].entities),
        },
{
    let colours = parse_step_colors(raw);
    let assembly = parse_assembly_transforms(raw);
    match open_step(raw) {
        Err(failure) => Err(failure),
        Ok(opened) => {
            let mut shells: Vec<ShellPlan> = Vec::new();
            let mut i: usize = 0;
            while i < opened.shell_ids.len()
                invariant
                    i <= opened.shell_ids.len(),
                    shells@.len() == i,
                    colors::triple_map(colours@) == colors::file_colours(raw@),
                    forall|k: int|
                        0 <= k < i ==> (#[trigger] shells@[k])@ == shell_plan(
                            k,
                            opened.shell_ids@,
                            colors::file_colours(raw@),
                            assembly.words(),
                            opened.owners@,
                        ),
                decreases opened.shell_ids.len() - i,
            {
                let entity: u64 = opened.shell_ids[i];
                let color = match colours.get(&entity) {
                    Some(c) => Some(c.copy()),
                    None => None,
                };
                let steps = assembly.shell_steps(entity);
                let solid = match opened.owners.get(&entity) {
                    Some(id) => Some(*id),
                    None => None,
                };
                let plan = ShellPlan { local_idx: i, entity, color, steps, solid };
                proof {
                    let all = colors::file_colours(raw@);
                    assert(all.contains_key(entity) <==> colours@.contains_key(entity));
                    if colours@.contains_key(entity) {
                        assert(all[entity] == colours@[entity]@);
                    }
                }
                shells.push(plan);
                i += 1;
            }
            Ok(LoadPlan { opened, assembly, shells })
        },
    }
}

/// The use of an edge in a boundary.
pub struct EdgeUse<T> {
    pub index: usize,
    pub orientation: bool,
    /// The exact trim curve on the face, if there is one.
    pub trim_curve: Option<T>,
}

/// A face with its boundaries; `S` is its surface or its mesh.
pub struct OutlineFace<S, T> {
    pub boundaries: Vec<Vec<EdgeUse<T>>>,
    pub orientation: bool,
    pub surface: S,
}

/// A face has a boundary with an edge.
pub open spec fn is_bounded<S, T>(face: OutlineFace<S, T>) -> bool {
    exists|i: int| 0 <= i < face.boundaries@.len() && (#[trigger] face.boundaries@[i])@.len() > 0
}

fn has_boundary<S, T>(face: &OutlineFace<S, T>) -> (r: bool)
    ensures
        r == is_bounded(*face),
{
    let mut i: usize = 0;
    while i < face.boundaries.len()
        invariant
            i <= face.boundaries.len(),
            forall|k: int| 0 <= k < i ==> (#[trigger] face.boundaries@[k])@.len() == 0,
        decreases face.boundaries.len() - i,
    {
        if face.boundaries[i].len() > 0 {
            assert(face.boundaries@[i as int]@.len() > 0);
            return true;
        }
        i += 1;
    }
    false
}

/// Tells whether some face has a boundary with an edge, with an exact trim
/// curve or without.
pub fn shell_requires_trimmed_meshing<S, T>(faces: &[OutlineFace<S, T>]) -> (r: bool)
    ensures
        r == exists|i: int| 0 <= i < faces@.len() && is_bounded(#[trigger] faces@[i]),
{
    let mut i: usize = 0;
    while i < faces.len()
        invariant
            i <= faces.len(),
            forall|k: int| 0 <= k < i ==> !is_bounded(#[trigger] faces@[k]),
        decreases faces.len() - i,
    {
        if has_boundary(&faces[i]) {
            assert(is_bounded(faces@[i as int]));
            return true;
        }
        i += 1;
    }
    false
}

/// The number of faces without a mesh.
pub open spec fn failed_count<M, T>(faces: Seq<OutlineFace<Option<M>, T>>) -> nat
    decreases faces.len(),
{
    if faces.len() == 0 {
        0
    } else {
        failed_count(faces.drop_last()) + (if faces.last().surface is None {
            1nat
        } else {
            0
        })
    }
}

/// The number of faces that could not be tessellated.
pub fn count_failed_face_meshes<M, T>(faces: &[OutlineFace<Option<M>, T>]) -> (r: usize)
    ensures
        r == failed_count(faces@),
{
    let mut count: usize = 0;
    let mut i: usize = 0;
    while i < faces.len()
        invariant
            i <= faces.len(),
            count <= i,
            count == failed_count(faces@.take(i as int)),
        decreases faces.len() - i,
    {
        assert(faces@.take(i + 1).drop_last() =~= faces@.take(i as int));
        if faces[i].surface.is_none() {
            count += 1;
        }
        i += 1;
    }
    assert(faces@.take(faces.len() as int) =~= faces@);
    count
}

/// How a tessellated face becomes a face of a shell.
pub struct FacePlan {
    /// Its place among the faces of the shell.
    pub face: usize,
    pub name: String,
    /// Whether its mesh is to be turned inside out.
    pub inverted: bool,
    pub boundary_loops: Vec<StepBoundaryLoop>,
}

pub ghost struct FacePlanModel {
    pub face: FaceModel,
    pub inverted: bool,
}

pub open spec fn loop_views(loops: Seq<StepBoundaryLoop>) -> Seq<LoopModel> {
    loops.map_values(|l: StepBoundaryLoop| l@)
}

impl View for FacePlan {
    type V = FacePlanModel;

    open spec fn view(&self) -> FacePlanModel {
        FacePlanModel {
            face: FaceModel {
                id: self.face,
                name: self.name@,
                loops: loop_views(self.boundary_loops@),
            },
            inverted: self.inverted,
        }
    }
}

pub open spec fn edge_indices<T>(uses: Seq<EdgeUse<T>>) -> Seq<usize> {
    uses.map_values(|u: EdgeUse<T>| u.index)
}

/// The loops of a face: the first boundary is the outer one.
pub open spec fn face_loops<T>(boundaries: Seq<Vec<EdgeUse<T>>>) -> Seq<LoopModel> {
    Seq::new(
        boundaries.len(),
        |i: int| LoopModel { edges: edge_indices(boundaries[i]@), is_outer: i == 0 },
    )
}

/// A name with a number, counted from one.
pub open spec fn numbered(word: Seq<char>, at: int) -> Seq<char> {
    word + " "@ + text::decimal((at + 1) as nat)
}

pub open spec fn face_plan<M, T>(at: int, face: OutlineFace<Option<M>, T>) -> FacePlanModel {
    FacePlanModel {
        face: FaceModel {
            id: at as usize,
            name: numbered("Face"@, at),
            loops: face_loops(face.boundaries@),
        },
        inverted: !face.orientation,
    }
}

/// The plans of the faces that have a mesh, in their order.
pub open spec fn planned_faces<M, T>(faces: Seq<OutlineFace<Option<M>, T>>) -> Seq<FacePlanModel>
    decreases faces.len(),
{
    if faces.len() == 0 {
        Seq::empty()
    } else {
        let before = planned_faces(faces.drop_last());
        if faces.last().surface is Some {
            before.push(face_plan(faces.len() - 1, faces.last()))
        } else {
            before
        }
    }
}

pub open spec fn plan_views(plans: Seq<FacePlan>) -> Seq<FacePlanModel> {
    plans.map_values(|p: FacePlan| p@)
}

fn numbered_name(word: &str, at: usize) -> (r: String)
    requires
        at < usize::MAX,
    ensures
        r@ == numbered(word@, at as int),
{
    let mut name = String::new();
    name.append(word);
    name.append(" ");
    push_decimal(&mut name, (at + 1) as u64);
    assert(name@ =~= numbered(word@, at as int));
    name
}

fn loops_of<T>(boundaries: &[Vec<EdgeUse<T>>]) -> (r: Vec<StepBoundaryLoop>)
    ensures
        loop_views(r@) == face_loops(boundaries@),
{
    let mut loops: Vec<StepBoundaryLoop> = Vec::new();
    let mut i: usize = 0;
    while i < boundaries.len()
        invariant
            i <= boundaries.len(),
            loops@.len() == i,
            forall|k: int| 0 <= k < i ==> (#[trigger] loops@[k])@ == face_loops(boundaries@)[k],
        decreases boundaries.len() - i,
    {
        let uses = &boundaries[i];
        let mut edges: Vec<usize> = Vec::new();
        let mut k: usize = 0;
        while k < uses.len()
            invariant
                k <= uses.len(),
                edges@ == edge_indices(uses@.take(k as int)),
            decreases uses.len() - k,
        {
            edges.push(uses[k].index);
            assert(edges@ =~= edge_indices(uses@.take(k + 1)));
            k += 1;
        }
        assert(uses@.take(uses.len() as int) =~= uses@);
        loops.push(StepBoundaryLoop { edge_indices: edges, is_outer: i == 0 });
        i += 1;
    }
    assert(loop_views(loops@) =~= face_loops(boundaries@));
    loops
}

/// The plans of the faces that have a mesh. A face keeps its place as its
/// number, also where others before it are left out.
pub fn face_plans<M, T>(faces: &[OutlineFace<Option<M>, T>]) -> (r: Vec<FacePlan>)
    ensures
        plan_views(r@) == planned_faces(faces@),
{
    let mut plans: Vec<FacePlan> = Vec::new();
    let mut i: usize = 0;
    while i < faces.len()
        invariant
            i <= faces.len(),
            plan_views(plans@) == planned_faces(faces@.take(i as int)),
        decreases faces.len() - i,
    {
        let ghost before = plans@;
        assert(faces@.take(i + 1).drop_last() =~= faces@.take(i as int));
        if faces[i].surface.is_some() {
            let plan = FacePlan {
                face: i,
                name: numbered_name("Face", i),
                inverted: !faces[i].orientation,
                boundary_loops: loops_of(faces[i].boundaries.as_slice()),
            };
            assert(plan@ == face_plan(i as int, faces@[i as int]));
            plans.push(plan);
            assert(plan_views(plans@) =~= plan_views(before).push(plan@));
        }
        i += 1;
    }
    assert(faces@.take(faces.len() as int) =~= faces@);
    plans
}

/// The faces of a shell, from their plans and their meshes.
pub fn step_faces<M>(plans: Vec<FacePlan>, meshes: Vec<M>) -> (r: Vec<StepFace<M>>)
    requires
        plans@.len() == meshes@.len(),
    ensures
        r@.len() == plans@.len(),
        forall|i: int|
            0 <= i < r@.len() ==> (#[trigger] r@[i]).model() == plans@[i]@.face && r@[i].mesh
                == meshes@[i],
{
    let ghost given = plans@;
    let ghost shapes = meshes@;
    let mut plans = reversed(plans);
    let mut meshes = reversed(meshes);
    let mut faces: Vec<StepFace<M>> = Vec::new();
    while plans.len() > 0 && meshes.len() > 0
        invariant
            given.len() == shapes.len(),
            plans@.len() == meshes@.len(),
            plans@ == given.reverse().take(plans@.len() as int),
            meshes@ == shapes.reverse().take(meshes@.len() as int),
            plans@.len() + faces@.len() == given.len(),
            forall|k: int|
                0 <= k < faces@.len() ==> (#[trigger] faces@[k]).model() == given[k]@.face
                    && faces@[k].mesh == shapes[k],
        decreases plans.len(),
    {
        match (plans.pop(), meshes.pop()) {
            (Some(plan), Some(mesh)) => {
                let ghost at = faces@.len() as int;
                assert(plan == given[at]);
                assert(mesh == shapes[at]);
                faces.push(
                    StepFace {
                        id: plan.face,
                        name: plan.name,
                        mesh,
                        boundary_loops: plan.boundary_loops,
                    },
                );
            },
            _ => {},
        }
    }
    faces
}

/// The edge curve at a place, of the given kinds: a curve whose kind is not
/// known is named so.
pub open spec fn curve_edge<P>(at: int, kinds: Seq<String>, points: Seq<P>) -> EdgeModel {
    EdgeModel {
        id: at as usize,
        curve_type: if at < kinds.len() {
            kinds[at]@
        } else {
            "Unknown"@
        },
        points: points.len(),
    }
}

/// The tessellated edge curves of a shell.
pub fn curve_edges<P>(kinds: &[String], polylines: Vec<Vec<P>>) -> (r: Vec<StepEdge<P>>)
    ensures
        r@.len() == polylines@.len(),
        forall|i: int|
            0 <= i < r@.len() ==> (#[trigger] r@[i]).model() == curve_edge(
                i,
                kinds@,
                polylines@[i]@,
            ) && r@[i].points == polylines@[i],
{
    let ghost given = polylines@;
    let mut rest = reversed(polylines);
    let mut edges: Vec<StepEdge<P>> = Vec::new();
    while rest.len() > 0
        invariant
            rest@ == given.reverse().take(rest@.len() as int),
            rest@.len() + edges@.len() == given.len(),
            forall|k: int|
                0 <= k < edges@.len() ==> (#[trigger] edges@[k]).model() == curve_edge(
                    k,
                    kinds@,
                    given[k]@,
                ) && edges@[k].points == given[k],
        decreases rest.len(),
    {
        let at: usize = edges.len();
        let curve_type: String = if at < kinds.len() {
            kinds[at].clone()
        } else {
            let mut unknown = String::new();
            unknown.append("Unknown");
            assert(unknown@ =~= "Unknown"@);
            unknown
        };
        match rest.pop() {
            Some(points) => {
                assert(points == given[at as int]);
                edges.push(StepEdge { id: at, curve_type, points });
            },
            None => {},
        }
    }
    edges
}

/// A shell of a loaded model.
pub fn step_shell<M, P, D, A>(
    local_idx: usize,
    faces: Vec<StepFace<M>>,
    curve_edges: Vec<StepEdge<P>>,
    topology: Option<StepTopology<D>>,
    failed_faces: usize,
    attributes: A,
) -> (r: StepShell<M, P, D, A>)
    requires
        local_idx < usize::MAX,
    ensures
        r.id == local_idx,
        r.name@ == numbered("Shell"@, local_idx as int),
        r.faces == faces,
        r.curve_edges == curve_edges,
        r.topology == topology,
        r.failed_faces == failed_faces,
        r.attributes == attributes,
{
    StepShell {
        id: local_idx,
        name: numbered_name("Shell", local_idx),
        faces,
        curve_edges,
        topology,
        failed_faces,
        attributes,
    }
}

/// The kind of an edge curve.
#[derive(Clone, Copy, Debug, PartialEq, Eq, Structural)]
pub enum CurveKind {
    Line,
    Polyline,
    Conic,
    Bspline,
    Pcurve,
    Nurbs,
    Intersection,
    Surface,
}

/// What is shown of the kind of a curve.
pub fn classify_curve_type(kind: CurveKind) -> (r: &'static str)
    ensures
        r@ == (match kind {
            CurveKind::Line => "Line"@,
            CurveKind::Polyline => "Polyline"@,
            CurveKind::Conic => "Conic"@,
            CurveKind::Bspline => "BSpline"@,
            CurveKind::Pcurve => "Pcurve"@,
            CurveKind::Nurbs => "NURBS"@,
            CurveKind::Intersection => "IntersectionCurve"@,
            CurveKind::Surface => "SurfaceCurve"@,
        }),
{
    match kind {
        CurveKind::Line => "Line",
        CurveKind::Polyline => "Polyline",
        CurveKind::Conic => "Conic",
        CurveKind::Bspline => "BSpline",
        CurveKind::Pcurve => "Pcurve",
        CurveKind::Nurbs => "NURBS",
        CurveKind::Intersection => "IntersectionCurve",
        CurveKind::Surface => "SurfaceCurve",
    }
}

/// The boundaries that stay when a face is tessellated anew.
pub open spec fn kept_boundaries(count: nat, active: Seq<usize>) -> Seq<usize>
    decreases active.len(),
{
    if active.len() == 0 {
        Seq::empty()
    } else {
        let before = kept_boundaries(count, active.drop_last());
        if active.last() < count {
            before.push(active.last())
        } else {
            before
        }
    }
}

/// The boundaries that stay when a face is tessellated anew, in the order in
/// which they are given. A number without a boundary is passed over.
pub fn active_boundaries(count: usize, active: &[usize]) -> (r: Vec<usize>)
    ensures
        r@ == kept_boundaries(count as nat, active@),
{
    let mut kept: Vec<usize> = Vec::new();
    let mut i: usize = 0;
    while i < active.len()
        invariant
            i <= active.len(),
            kept@ == kept_boundaries(count as nat, active@.take(i as int)),
        decreases active.len() - i,
    {
        assert(active@.take(i + 1).drop_last() =~= active@.take(i as int));
        if active[i] < count {
            kept.push(active[i]);
        }
        i += 1;
    }
    assert(active@.take(active.len() as int) =~= active@);
    kept
}

/// Where the original topology of a shell comes from.
#[derive(Clone, Copy, Debug, PartialEq, Eq, Structural)]
pub enum TopologySource {
    /// The shell itself.
    Shell,
    /// A solid that was converted before.
    Kept(u64),
    /// A solid that is to be converted.
    Convert(u64),
}

/// The solids that were converted before; shells of one solid share it.
pub struct SolidCache<D> {
    solids: HashMap<u64, D>,
}

impl<D> View for SolidCache<D> {
    type V = Map<u64, D>;

    closed spec fn view(&self) -> Map<u64, D> {
        self.solids@
    }
}

impl<D> SolidCache<D> {
    pub fn new() -> (r: SolidCache<D>)
        ensures
            r@ == Map::<u64, D>::empty(),
    {
        SolidCache { solids: HashMap::new() }
    }

    /// Where the topology of a shell that bounds the given solid comes from.
    pub fn source(&self, solid: Option<u64>) -> (r: TopologySource)
        ensures
            r == (match solid {
                None => TopologySource::Shell,
                Some(id) => if self@.contains_key(id) {
                    TopologySource::Kept(id)
                } else {
                    TopologySource::Convert(id)
                },
            }),
    {
        match solid {
            None => TopologySource::Shell,
            Some(id) => {
                if self.solids.contains_key(&id) {
                    TopologySource::Kept(id)
                } else {
                    TopologySource::Convert(id)
                }
            },
        }
    }

    pub fn get(&self, id: u64) -> (r: Option<&D>)
        ensures
            match r {
                Some(d) => self@.contains_key(id) && *d == self@[id],
                None => !self@.contains_key(id),
            },
    {
        self.solids.get(&id)
    }

    pub fn keep(&mut self, id: u64, solid: D)
        ensures
            final(self)@ == old(self)@.insert(id, solid),
    {
        self.solids.insert(id, solid);
    }
}

/// The topology of a shell: that of its solid, if it bounds one, and none if
/// that could not be converted.
pub fn build_topology_for_shell<D>(
    source: TopologySource,
    shell: D,
    solid: Option<D>,
) -> (r: Option<StepTopology<D>>)
    ensures
        r == (match source {
            TopologySource::Shell => Some(StepTopology::Shell(shell)),
            _ => match solid {
                Some(d) => Some(StepTopology::Solid(d)),
                None => None,
            },
        }),
{
    match source {
        TopologySource::Shell => Some(StepTopology::Shell(shell)),
        _ => match solid {
            Some(d) => Some(StepTopology::Solid(d)),
            None => None,
        },
    }
}

/// Why the shells of a file make no scene.
pub enum SceneFailure {
    /// A shell could not be converted; the reason.
    Shell(String),
    NoShells,
}

pub open spec fn failure_text(f: SceneFailure) -> Seq<char> {
    match f {
        SceneFailure::Shell(reason) => "Failed to convert STEP shell into topology: "@ + reason@,
        SceneFailure::NoShells => "No shells found in STEP file"@,
    }
}

impl SceneFailure {
    pub fn message(&self) -> (r: String)
        ensures
            r@ == failure_text(*self),
    {
        let mut out = String::new();
        match self {
            SceneFailure::Shell(reason) => {
                out.append("Failed to convert STEP shell into topology: ");
                out.append(reason.as_str());
            },
            SceneFailure::NoShells => {
                out.append("No shells found in STEP file");
            },
        }
        assert(out@ =~= failure_text(*self));
        out
    }
}

/// The scene of a file, from what became of its shells in the order of their
/// numbers. It needs at least one shell, and the first one that could not be
/// converted fails it.
pub fn scene_of<M, P, D, A>(
    metadata: StepMetadata,
    shells: Vec<Result<StepShell<M, P, D, A>, String>>,
) -> (r: Result<StepScene<M, P, D, A>, SceneFailure>)
    ensures
        match r {
            Ok(scene) => {
                &&& scene.metadata == metadata
                &&& scene.shells@.len() == shells@.len() > 0
                &&& forall|i: int|
                    0 <= i < shells@.len() ==> shells@[i] == Ok::<StepShell<M, P, D, A>, String>(
                        #[trigger] scene.shells@[i],
                    )
            },
            Err(SceneFailure::NoShells) => shells@.len() == 0,
            Err(SceneFailure::Shell(reason)) => exists|i: int|
                0 <= i < shells@.len() && #[trigger] shells@[i] == Err::<
                    StepShell<M, P, D, A>,
                    String,
                >(reason) && forall|k: int| 0 <= k < i ==> (#[trigger] shells@[k]) is Ok,
        },
{
    let ghost given = shells@;
    let mut rest = reversed(shells);
    let mut out: Vec<StepShell<M, P, D, A>> = Vec::new();
    while rest.len() > 0
        invariant
            given == shells@,
            rest@ == given.reverse().take(rest@.len() as int),
            rest@.len() + out@.len() == given.len(),
            forall|i: int|
                0 <= i < out@.len() ==> given[i] == Ok::<StepShell<M, P, D, A>, String>(
                    #[trigger] out@[i],
                ),
        decreases rest.len(),
    {
        let ghost at = out@.len() as int;
        if let Some(shell) = rest.pop() {
            assert(shell == given[at]);
            match shell {
                Ok(s) => {
                    out.push(s);
                },
                Err(reason) => {
                    assert forall|k: int| 0 <= k < at implies (#[trigger] shells@[k]) is Ok by {
                        assert(given[k] == Ok::<StepShell<M, P, D, A>, String>(out@[k]));
                    }
                    return Err(SceneFailure::Shell(reason));
                },
            }
        }
    }
    if out.len() == 0 {
        Err(SceneFailure::NoShells)
    } else {
        Ok(StepScene { metadata, shells: out })
    }
}

} // verus!
