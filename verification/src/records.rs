//! The hierarchy of shells, faces, boundary loops and edges of a loaded
//! model, as records that the panels show and change.
//!
//! Faces, edges and loops are numbered through over all shells: the number of
//! a record is its place in its list.

use std::collections::HashSet;
use vstd::prelude::*;

use crate::model;
use crate::model::{FaceModel, LoopModel, ShellModel, StepFace, StepShell};
use crate::text;
use crate::text::push_decimal;

verus! {

broadcast use vstd::std_specs::hash::group_hash_axioms;

/// What is selected or hovered.
#[derive(Clone, Copy, Debug, PartialEq, Eq, Structural)]
pub enum Selection {
    Shell(usize),
    Face(usize),
    Edge(usize),
    Loop(usize),
}

/// A face; `C` is the colour in which the panel shows it.
pub struct FaceRecord<C> {
    pub id: usize,
    pub shell_id: usize,
    /// The number of the face in its shell.
    pub source_face_id: usize,
    pub name: String,
    pub triangles: usize,
    pub visible: bool,
    pub ui_color: C,
    /// The edges of all its boundary loops.
    pub edge_ids: Vec<usize>,
    pub loop_ids: Vec<usize>,
    /// Marks that the shader shows, in its own bits.
    pub annotation: u32,
}

pub struct EdgeRecord {
    pub id: usize,
    pub shell_id: usize,
    pub name: String,
    pub point_count: usize,
    pub visible: bool,
}

pub struct LoopRecord {
    pub id: usize,
    pub face_id: usize,
    pub shell_id: usize,
    pub is_outer: bool,
    pub edge_ids: Vec<usize>,
    pub trimming_active: bool,
}

pub struct ShellRecord {
    pub id: usize,
    pub name: String,
    pub expanded: bool,
    /// Hides or shows the whole shell.
    pub visible: bool,
    pub failed_faces: usize,
    pub face_ids: Vec<usize>,
    /// Edges that no face boundary refers to.
    pub standalone_edge_ids: Vec<usize>,
    /// For each vertex of the shell's mesh the number of its face.
    pub vertex_face_index: Vec<u32>,
}

/// The records of all loaded shells.
pub struct Hierarchy<C> {
    pub shells: Vec<ShellRecord>,
    pub faces: Vec<FaceRecord<C>>,
    pub edges: Vec<EdgeRecord>,
    pub loops: Vec<LoopRecord>,
}

pub ghost struct FaceFacts<C> {
    pub id: int,
    pub shell_id: usize,
    pub source_face_id: usize,
    pub name: Seq<char>,
    pub triangles: usize,
    pub visible: bool,
    pub ui_color: C,
    pub edge_ids: Seq<usize>,
    pub loop_ids: Seq<usize>,
    pub annotation: u32,
}

pub ghost struct EdgeFacts {
    pub id: int,
    pub shell_id: usize,
    pub name: Seq<char>,
    pub point_count: nat,
    pub visible: bool,
}

pub ghost struct LoopFacts {
    pub id: int,
    pub face_id: int,
    pub shell_id: usize,
    pub is_outer: bool,
    pub edge_ids: Seq<usize>,
    pub trimming_active: bool,
}

pub ghost struct ShellFacts {
    pub id: usize,
    pub name: Seq<char>,
    pub expanded: bool,
    pub visible: bool,
    pub failed_faces: usize,
    pub face_ids: Seq<usize>,
    pub standalone_edge_ids: Seq<usize>,
    pub vertex_face_index: Seq<u32>,
}

impl<C> View for FaceRecord<C> {
    type V = FaceFacts<C>;

    open spec fn view(&self) -> FaceFacts<C> {
        FaceFacts {
            id: self.id as int,
            shell_id: self.shell_id,
            source_face_id: self.source_face_id,
            name: self.name@,
            triangles: self.triangles,
            visible: self.visible,
            ui_color: self.ui_color,
            edge_ids: self.edge_ids@,
            loop_ids: self.loop_ids@,
            annotation: self.annotation,
        }
    }
}

impl View for EdgeRecord {
    type V = EdgeFacts;

    open spec fn view(&self) -> EdgeFacts {
        EdgeFacts {
            id: self.id as int,
            shell_id: self.shell_id,
            name: self.name@,
            point_count: self.point_count as nat,
            visible: self.visible,
        }
    }
}

impl View for LoopRecord {
    type V = LoopFacts;

    open spec fn view(&self) -> LoopFacts {
        LoopFacts {
            id: self.id as int,
            face_id: self.face_id as int,
            shell_id: self.shell_id,
            is_outer: self.is_outer,
            edge_ids: self.edge_ids@,
            trimming_active: self.trimming_active,
        }
    }
}

impl View for ShellRecord {
    type V = ShellFacts;

    open spec fn view(&self) -> ShellFacts {
        ShellFacts {
            id: self.id,
            name: self.name@,
            expanded: self.expanded,
            visible: self.visible,
            failed_faces: self.failed_faces,
            face_ids: self.face_ids@,
            standalone_edge_ids: self.standalone_edge_ids@,
            vertex_face_index: self.vertex_face_index@,
        }
    }
}

/// The mathematical form of a [`Hierarchy`].
#[verifier::ext_equal]
pub ghost struct Facts<C> {
    pub shells: Seq<ShellFacts>,
    pub faces: Seq<FaceFacts<C>>,
    pub edges: Seq<EdgeFacts>,
    pub loops: Seq<LoopFacts>,
}

impl<C> View for Hierarchy<C> {
    type V = Facts<C>;

    open spec fn view(&self) -> Facts<C> {
        Facts {
            shells: self.shells@.map_values(|s: ShellRecord| s@),
            faces: self.faces@.map_values(|f: FaceRecord<C>| f@),
            edges: self.edges@.map_values(|e: EdgeRecord| e@),
            loops: self.loops@.map_values(|l: LoopRecord| l@),
        }
    }
}

impl<C> Facts<C> {
    /// The number of each face, edge and loop is its place.
    pub open spec fn numbered(self) -> bool {
        &&& forall|i: int| 0 <= i < self.faces.len() ==> (#[trigger] self.faces[i]).id == i
        &&& forall|i: int| 0 <= i < self.edges.len() ==> (#[trigger] self.edges[i]).id == i
        &&& forall|i: int| 0 <= i < self.loops.len() ==> (#[trigger] self.loops[i]).id == i
    }

    /// The loops of a face name that face, and the faces of a shell are those
    /// that name the shell's records.
    pub open spec fn linked(self) -> bool {
        &&& forall|f: int, k: int|
            0 <= f < self.faces.len() && 0 <= k < self.faces[f].loop_ids.len()
                ==> (#[trigger] self.faces[f].loop_ids[k]) < self.loops.len()
                && self.loops[self.faces[f].loop_ids[k] as int].face_id == f
        &&& forall|l: int|
            0 <= l < self.loops.len() ==> 0 <= (#[trigger] self.loops[l]).face_id
                < self.faces.len()
    }

    pub open spec fn empty() -> Facts<C> {
        Facts { shells: Seq::empty(), faces: Seq::empty(), edges: Seq::empty(), loops: Seq::empty() }
    }
}

// The records of one more shell.

/// The edge numbers of a loop, moved behind the edges of the shells before.
pub open spec fn moved(edges: Seq<usize>, base: int) -> Seq<usize> {
    edges.map_values(|e: usize| (base + e) as usize)
}

/// The edge numbers of the first loops of a face.
pub open spec fn loop_edges(loops: Seq<LoopModel>, base: int) -> Seq<usize>
    decreases loops.len(),
{
    if loops.len() == 0 {
        Seq::empty()
    } else {
        loop_edges(loops.drop_last(), base) + moved(loops.last().edges, base)
    }
}

/// How many loops the first faces have.
pub open spec fn loop_count(faces: Seq<FaceModel>) -> int
    decreases faces.len(),
{
    if faces.len() == 0 {
        0
    } else {
        loop_count(faces.drop_last()) + faces.last().loops.len()
    }
}

/// The records of the loops of one face.
pub open spec fn face_loops(
    face: FaceModel,
    face_id: int,
    shell_id: usize,
    base_loop: int,
    base_edge: int,
) -> Seq<LoopFacts> {
    Seq::new(
        face.loops.len(),
        |k: int|
            LoopFacts {
                id: base_loop + k,
                face_id,
                shell_id,
                is_outer: k == 0,
                edge_ids: moved(face.loops[k].edges, base_edge),
                trimming_active: true,
            },
    )
}

/// The records of the loops of the first faces.
pub open spec fn new_loops(
    faces: Seq<FaceModel>,
    shell_id: usize,
    base_face: int,
    base_loop: int,
    base_edge: int,
) -> Seq<LoopFacts>
    decreases faces.len(),
{
    if faces.len() == 0 {
        Seq::empty()
    } else {
        let init = faces.drop_last();
        new_loops(init, shell_id, base_face, base_loop, base_edge) + face_loops(
            faces.last(),
            base_face + init.len(),
            shell_id,
            base_loop + loop_count(init),
            base_edge,
        )
    }
}

/// What the mesh of a shell tells about its faces.
pub ghost struct MeshFacts<C> {
    pub triangles: Seq<usize>,
    pub colors: Seq<C>,
    pub default_color: C,
    pub vertex_face_index: Seq<u32>,
}

pub open spec fn new_face<C>(
    shell: ShellModel,
    i: int,
    mesh: MeshFacts<C>,
    base_face: int,
    base_loop: int,
    base_edge: int,
) -> FaceFacts<C> {
    let face = shell.faces[i];
    FaceFacts {
        id: base_face + i,
        shell_id: shell.id,
        source_face_id: face.id,
        name: face.name,
        triangles: if i < mesh.triangles.len() {
            mesh.triangles[i]
        } else {
            0
        },
        visible: true,
        ui_color: if i < mesh.colors.len() {
            mesh.colors[i]
        } else {
            mesh.default_color
        },
        edge_ids: loop_edges(face.loops, base_edge),
        loop_ids: Seq::new(
            face.loops.len(),
            |k: int| (base_loop + loop_count(shell.faces.take(i)) + k) as usize,
        ),
        annotation: 0,
    }
}

/// The name of an edge: its place among the edges of the shell and the type
/// of its curve.
pub open spec fn edge_name(i: int, curve_type: Seq<char>) -> Seq<char> {
    "Edge "@ + text::decimal((i + 1) as nat) + " ("@ + curve_type + ")"@
}

pub open spec fn new_edge(shell: ShellModel, i: int, base_edge: int) -> EdgeFacts {
    EdgeFacts {
        id: base_edge + i,
        shell_id: shell.id,
        name: edge_name(i, shell.edges[i].curve_type),
        point_count: shell.edges[i].points,
        visible: true,
    }
}

/// Whether a boundary loop of one of the faces refers to an edge.
pub open spec fn refers_to(faces: Seq<FaceModel>, edge: int) -> bool {
    exists|f: int, l: int, e: int|
        0 <= f < faces.len() && 0 <= l < faces[f].loops.len() && 0 <= e
            < faces[f].loops[l].edges.len() && #[trigger] faces[f].loops[l].edges[e] == edge
}

/// Those of the first `n` edges that no face refers to.
pub open spec fn standalone(faces: Seq<FaceModel>, n: int, base_edge: int) -> Seq<usize>
    decreases n,
{
    if n <= 0 {
        Seq::empty()
    } else if refers_to(faces, n - 1) {
        standalone(faces, n - 1, base_edge)
    } else {
        standalone(faces, n - 1, base_edge).push((base_edge + n - 1) as usize)
    }
}

/// The records with those of one more shell behind them.
pub open spec fn with_shell<C>(facts: Facts<C>, shell: ShellModel, mesh: MeshFacts<C>) -> Facts<
    C,
> {
    let base_face = facts.faces.len() as int;
    let base_edge = facts.edges.len() as int;
    let base_loop = facts.loops.len() as int;
    Facts {
        shells: facts.shells.push(
            ShellFacts {
                id: shell.id,
                name: shell.name,
                expanded: false,
                visible: true,
                failed_faces: shell.failed_faces,
                face_ids: Seq::new(shell.faces.len(), |i: int| (base_face + i) as usize),
                standalone_edge_ids: standalone(shell.faces, shell.edges.len() as int, base_edge),
                vertex_face_index: mesh.vertex_face_index,
            },
        ),
        faces: facts.faces + Seq::new(
            shell.faces.len(),
            |i: int| new_face(shell, i, mesh, base_face, base_loop, base_edge),
        ),
        edges: facts.edges + Seq::new(
            shell.edges.len(),
            |i: int| new_edge(shell, i, base_edge),
        ),
        loops: facts.loops + new_loops(shell.faces, shell.id, base_face, base_loop, base_edge),
    }
}

/// The records can be numbered with machine words once the shell is added.
pub open spec fn can_add<C>(facts: Facts<C>, shell: ShellModel) -> bool {
    &&& facts.faces.len() + shell.faces.len() <= usize::MAX
    &&& facts.edges.len() + shell.edges.len() < usize::MAX
    &&& facts.loops.len() + loop_count(shell.faces) <= usize::MAX
    &&& forall|f: int, l: int, e: int|
        0 <= f < shell.faces.len() && 0 <= l < shell.faces[f].loops.len() && 0 <= e
            < shell.faces[f].loops[l].edges.len() ==> facts.edges.len() + (
        #[trigger] shell.faces[f].loops[l].edges[e]) <= usize::MAX
}

pub proof fn lemma_loop_count_grows(faces: Seq<FaceModel>, n: int)
    requires
        0 <= n <= faces.len(),
    ensures
        0 <= loop_count(faces.take(n)) <= loop_count(faces),
    decreases faces.len(),
{
    if n < faces.len() {
        lemma_loop_count_grows(faces.drop_last(), n);
        assert(faces.drop_last().take(n) =~= faces.take(n));
    } else {
        assert(faces.take(n) =~= faces);
        if n > 0 {
            lemma_loop_count_grows(faces.drop_last(), n - 1);
            assert(faces.drop_last().take(n - 1) =~= faces.drop_last());
        }
    }
}

pub proof fn lemma_new_loops_length(
    faces: Seq<FaceModel>,
    shell_id: usize,
    base_face: int,
    base_loop: int,
    base_edge: int,
)
    ensures
        new_loops(faces, shell_id, base_face, base_loop, base_edge).len() == loop_count(faces),
    decreases faces.len(),
{
    if faces.len() > 0 {
        lemma_new_loops_length(faces.drop_last(), shell_id, base_face, base_loop, base_edge);
    }
}

/// The loops of the first faces, looked up by their place.
pub proof fn lemma_new_loop_at(
    faces: Seq<FaceModel>,
    shell_id: usize,
    base_face: int,
    base_loop: int,
    base_edge: int,
    f: int,
    k: int,
)
    requires
        0 <= f < faces.len(),
        0 <= k < faces[f].loops.len(),
    ensures
        ({
            let loops = new_loops(faces, shell_id, base_face, base_loop, base_edge);
            let at = loop_count(faces.take(f)) + k;
            &&& 0 <= at < loops.len()
            &&& loops[at] == face_loops(
                faces[f],
                base_face + f,
                shell_id,
                base_loop + loop_count(faces.take(f)),
                base_edge,
            )[k]
        }),
    decreases faces.len(),
{
    let init = faces.drop_last();
    lemma_new_loops_length(init, shell_id, base_face, base_loop, base_edge);
    lemma_loop_count_grows(init, if f < init.len() {
        f
    } else {
        init.len() as int
    });
    if f < init.len() {
        lemma_new_loop_at(init, shell_id, base_face, base_loop, base_edge, f, k);
        assert(init.take(f) =~= faces.take(f));
        assert(init[f] == faces[f]);
    } else {
        assert(faces.take(f) =~= init);
        assert(init.take(init.len() as int) =~= init);
    }
}

/// Every new loop has the number of its place and belongs to a new face.
proof fn lemma_new_loops_numbered(
    faces: Seq<FaceModel>,
    shell_id: usize,
    base_face: int,
    base_loop: int,
    base_edge: int,
)
    ensures
        ({
            let loops = new_loops(faces, shell_id, base_face, base_loop, base_edge);
            forall|i: int|
                0 <= i < loops.len() ==> (#[trigger] loops[i]).id == base_loop + i && base_face
                    <= loops[i].face_id < base_face + faces.len()
        }),
    decreases faces.len(),
{
    if faces.len() > 0 {
        let init = faces.drop_last();
        lemma_new_loops_numbered(init, shell_id, base_face, base_loop, base_edge);
        lemma_new_loops_length(init, shell_id, base_face, base_loop, base_edge);
        let before = new_loops(init, shell_id, base_face, base_loop, base_edge);
        let loops = new_loops(faces, shell_id, base_face, base_loop, base_edge);
        assert forall|i: int| 0 <= i < loops.len() implies (#[trigger] loops[i]).id == base_loop + i
            && base_face <= loops[i].face_id < base_face + faces.len() by {
            if i < before.len() {
                assert(loops[i] == before[i]);
            }
        }
    }
}

/// Adding a shell keeps the records numbered by their place, and the loops of
/// each face naming that face.
pub proof fn law_add_shell_keeps_links<C>(facts: Facts<C>, shell: ShellModel, mesh: MeshFacts<C>)
    requires
        facts.numbered(),
        facts.linked(),
        can_add(facts, shell),
    ensures
        with_shell(facts, shell, mesh).numbered(),
        with_shell(facts, shell, mesh).linked(),
{
    let now = with_shell(facts, shell, mesh);
    let base_face = facts.faces.len() as int;
    let base_edge = facts.edges.len() as int;
    let base_loop = facts.loops.len() as int;
    let loops = new_loops(shell.faces, shell.id, base_face, base_loop, base_edge);
    lemma_new_loops_numbered(shell.faces, shell.id, base_face, base_loop, base_edge);
    lemma_new_loops_length(shell.faces, shell.id, base_face, base_loop, base_edge);
    assert forall|i: int| 0 <= i < now.loops.len() implies (#[trigger] now.loops[i]).id == i && 0
        <= now.loops[i].face_id < now.faces.len() by {
        if i < base_loop {
            assert(now.loops[i] == facts.loops[i]);
        } else {
            assert(now.loops[i] == loops[i - base_loop]);
        }
    }
    assert forall|f: int, k: int|
        0 <= f < now.faces.len() && 0 <= k < now.faces[f].loop_ids.len() implies (
    #[trigger] now.faces[f].loop_ids[k]) < now.loops.len()
        && now.loops[now.faces[f].loop_ids[k] as int].face_id == f by {
        if f < base_face {
            assert(now.faces[f] == facts.faces[f]);
            assert(facts.faces[f].loop_ids[k] < facts.loops.len());
            assert(now.loops[now.faces[f].loop_ids[k] as int]
                == facts.loops[facts.faces[f].loop_ids[k] as int]);
        } else {
            let i = f - base_face;
            assert(now.faces[f] == new_face(shell, i, mesh, base_face, base_loop, base_edge));
            lemma_new_loop_at(shell.faces, shell.id, base_face, base_loop, base_edge, i, k);
            lemma_loop_count_grows(shell.faces, i);
            let at = loop_count(shell.faces.take(i)) + k;
            assert(now.faces[f].loop_ids[k] == base_loop + at);
            assert(now.loops[base_loop + at] == loops[at]);
        }
    }
}

pub open spec fn loop_models(loops: Seq<model::StepBoundaryLoop>) -> Seq<LoopModel> {
    loops.map_values(|l: model::StepBoundaryLoop| l@)
}

/// Whether one of the loops refers to an edge.
spec fn loops_refer_to(loops: Seq<LoopModel>, edge: int) -> bool {
    exists|l: int, e: int|
        0 <= l < loops.len() && 0 <= e < loops[l].edges.len() && #[trigger] loops[l].edges[e] == edge
}

fn moved_edges(
    edges: &Vec<usize>,
    base: usize,
    ids: &mut Vec<usize>,
    referenced: &mut HashSet<usize>,
) -> (r: Vec<usize>)
    requires
        forall|e: int| 0 <= e < edges@.len() ==> base + #[trigger] edges@[e] <= usize::MAX,
    ensures
        r@ == moved(edges@, base as int),
        final(ids)@ == old(ids)@ + moved(edges@, base as int),
        forall|e: usize| #[trigger]
            final(referenced)@.contains(e) <==> old(referenced)@.contains(e) || edges@.contains(e),
{
    let ghost all = moved(edges@, base as int);
    let ghost ids_before = ids@;
    let ghost before = referenced@;
    let mut out: Vec<usize> = Vec::new();
    let mut i: usize = 0;
    assert(ids_before + all.take(0) =~= ids_before);
    while i < edges.len()
        invariant
            i <= edges.len(),
            forall|e: int| 0 <= e < edges@.len() ==> base + #[trigger] edges@[e] <= usize::MAX,
            all == moved(edges@, base as int),
            out@ == all.take(i as int),
            ids@ == ids_before + all.take(i as int),
            forall|e: usize| #[trigger]
                referenced@.contains(e) <==> before.contains(e) || edges@.take(i as int).contains(
                    e,
                ),
        decreases edges.len() - i,
    {
        let id: usize = base + edges[i];
        let ghost seen = edges@.take(i as int);
        let ghost now = edges@.take(i + 1);
        let ghost marked = referenced@;
        out.push(id);
        ids.push(id);
        referenced.insert(edges[i]);
        proof {
            assert(all[i as int] == id);
            assert(out@ =~= all.take(i + 1));
            assert(ids@ =~= ids_before + all.take(i + 1));
            assert forall|e: usize| #[trigger] referenced@.contains(e) <==> before.contains(e)
                || now.contains(e) by {
                assert(marked.contains(e) <==> before.contains(e) || seen.contains(e));
                assert(now[i as int] == edges@[i as int]);
                if seen.contains(e) {
                    assert(now[seen.index_of(e)] == e);
                }
                if now.contains(e) && e != edges@[i as int] {
                    assert(seen[now.index_of(e)] == e);
                }
            }
        }
        i += 1;
    }
    assert(all.take(all.len() as int) =~= all);
    assert(edges@.take(edges.len() as int) =~= edges@);
    out
}

proof fn lemma_refers_step(loops: Seq<LoopModel>, n: int, edge: int)
    requires
        0 <= n < loops.len(),
    ensures
        loops_refer_to(loops.take(n + 1), edge) <==> loops_refer_to(loops.take(n), edge) || exists|
            e: int,
        |
            0 <= e < loops[n].edges.len() && #[trigger] loops[n].edges[e] == edge,
{
    let shorter = loops.take(n);
    let longer = loops.take(n + 1);
    if loops_refer_to(shorter, edge) {
        let (l, e) = choose|l: int, e: int|
            0 <= l < shorter.len() && 0 <= e < shorter[l].edges.len()
                && #[trigger] shorter[l].edges[e] == edge;
        assert(longer[l].edges[e] == edge);
    }
    if loops_refer_to(longer, edge) {
        let (l, e) = choose|l: int, e: int|
            0 <= l < longer.len() && 0 <= e < longer[l].edges.len()
                && #[trigger] longer[l].edges[e] == edge;
        if l < n {
            assert(shorter[l].edges[e] == edge);
        } else {
            assert(loops[n].edges[e] == edge);
        }
    }
    if exists|e: int| 0 <= e < loops[n].edges.len() && #[trigger] loops[n].edges[e] == edge {
        let e = choose|e: int| 0 <= e < loops[n].edges.len() && #[trigger] loops[n].edges[e]
            == edge;
        assert(longer[n].edges[e] == edge);
    }
}

proof fn lemma_faces_refer_step(faces: Seq<FaceModel>, n: int, edge: int)
    requires
        0 <= n < faces.len(),
    ensures
        refers_to(faces.take(n + 1), edge) <==> refers_to(faces.take(n), edge) || loops_refer_to(
            faces[n].loops,
            edge,
        ),
{
    let shorter = faces.take(n);
    let longer = faces.take(n + 1);
    if refers_to(shorter, edge) {
        let (f, l, e) = choose|f: int, l: int, e: int|
            0 <= f < shorter.len() && 0 <= l < shorter[f].loops.len() && 0 <= e
                < shorter[f].loops[l].edges.len() && #[trigger] shorter[f].loops[l].edges[e] == edge;
        assert(longer[f].loops[l].edges[e] == edge);
    }
    if refers_to(longer, edge) {
        let (f, l, e) = choose|f: int, l: int, e: int|
            0 <= f < longer.len() && 0 <= l < longer[f].loops.len() && 0 <= e
                < longer[f].loops[l].edges.len() && #[trigger] longer[f].loops[l].edges[e] == edge;
        if f < n {
            assert(shorter[f].loops[l].edges[e] == edge);
        } else {
            assert(faces[n].loops[l].edges[e] == edge);
        }
    }
    if loops_refer_to(faces[n].loops, edge) {
        let (l, e) = choose|l: int, e: int|
            0 <= l < faces[n].loops.len() && 0 <= e < faces[n].loops[l].edges.len()
                && #[trigger] faces[n].loops[l].edges[e] == edge;
        assert(longer[n].loops[l].edges[e] == edge);
    }
}

fn decimal_name(prefix: &str, n: usize) -> (r: String)
    requires
        n < usize::MAX,
    ensures
        r@ == prefix@ + text::decimal((n + 1) as nat),
{
    let mut out = String::new();
    out.append(prefix);
    push_decimal(&mut out, (n + 1) as u64);
    assert(out@ =~= prefix@ + text::decimal((n + 1) as nat));
    out
}

fn edge_title(i: usize, curve_type: &str) -> (r: String)
    requires
        i < usize::MAX,
    ensures
        r@ == edge_name(i as int, curve_type@),
{
    let mut out = decimal_name("Edge ", i);
    out.append(" (");
    out.append(curve_type);
    out.append(")");
    assert(out@ =~= edge_name(i as int, curve_type@));
    out
}

spec fn loop_views(loops: Seq<LoopRecord>) -> Seq<LoopFacts> {
    loops.map_values(|l: LoopRecord| l@)
}

/// Records the loops of one face; gives back the edges and the loops that the
/// face then has.
fn add_loops(
    loops: &mut Vec<LoopRecord>,
    boundary: &Vec<model::StepBoundaryLoop>,
    face_id: usize,
    shell_id: usize,
    base_edge: usize,
    referenced: &mut HashSet<usize>,
) -> (r: (Vec<usize>, Vec<usize>))
    requires
        old(loops)@.len() + boundary@.len() <= usize::MAX,
        forall|l: int, e: int|
            0 <= l < boundary@.len() && 0 <= e < boundary@[l].edge_indices@.len() ==> base_edge + (
            #[trigger] boundary@[l].edge_indices@[e]) <= usize::MAX,
    ensures
        ({
            let face = FaceModel { id: 0, name: Seq::empty(), loops: loop_models(boundary@) };
            loop_views(final(loops)@) == loop_views(old(loops)@) + face_loops(
                face,
                face_id as int,
                shell_id,
                old(loops)@.len() as int,
                base_edge as int,
            )
        }),
        r.0@ == loop_edges(loop_models(boundary@), base_edge as int),
        r.1@.len() == boundary@.len(),
        forall|k: int| 0 <= k < r.1@.len() ==> #[trigger] r.1@[k] == old(loops)@.len() + k,
        forall|e: usize| #[trigger]
            final(referenced)@.contains(e) <==> old(referenced)@.contains(e) || loops_refer_to(
                loop_models(boundary@),
                e as int,
            ),
{
    let ghost models = loop_models(boundary@);
    let ghost face = FaceModel { id: 0, name: Seq::empty(), loops: models };
    let ghost start = loops@;
    let ghost base_loop = loops@.len() as int;
    let ghost before = referenced@;
    let ghost records = face_loops(face, face_id as int, shell_id, base_loop, base_edge as int);
    let mut edge_ids: Vec<usize> = Vec::new();
    let mut loop_ids: Vec<usize> = Vec::new();
    let mut k: usize = 0;
    assert(loop_views(start) + records.take(0) =~= loop_views(start));
    assert(models.take(0) =~= Seq::empty());
    while k < boundary.len()
        invariant
            k <= boundary.len(),
            base_loop + boundary@.len() <= usize::MAX,
            forall|l: int, e: int|
                0 <= l < boundary@.len() && 0 <= e < boundary@[l].edge_indices@.len() ==> base_edge
                    + (#[trigger] boundary@[l].edge_indices@[e]) <= usize::MAX,
            models == loop_models(boundary@),
            face.loops == models,
            base_loop == start.len(),
            records == face_loops(face, face_id as int, shell_id, base_loop, base_edge as int),
            loops@.len() == base_loop + k,
            loop_views(loops@) == loop_views(start) + records.take(k as int),
            edge_ids@ == loop_edges(models.take(k as int), base_edge as int),
            loop_ids@.len() == k,
            forall|j: int| 0 <= j < k ==> #[trigger] loop_ids@[j] == base_loop + j,
            forall|e: usize| #[trigger]
                referenced@.contains(e) <==> before.contains(e) || loops_refer_to(
                    models.take(k as int),
                    e as int,
                ),
        decreases boundary.len() - k,
    {
        let id: usize = loops.len();
        let ghost so_far = loops@;
        let ghost marked = referenced@;
        proof {
            assert(models.take(k + 1).drop_last() =~= models.take(k as int));
            assert(models[k as int].edges == boundary@[k as int].edge_indices@);
            assert forall|e: int| 0 <= e < boundary@[k as int].edge_indices@.len() implies base_edge
                + #[trigger] boundary@[k as int].edge_indices@[e] <= usize::MAX by {}
        }
        let ids = moved_edges(&boundary[k].edge_indices, base_edge, &mut edge_ids, referenced);
        let record = LoopRecord {
            id,
            face_id,
            shell_id,
            is_outer: k == 0,
            edge_ids: ids,
            trimming_active: true,
        };
        let ghost shown = record@;
        loops.push(record);
        loop_ids.push(id);
        proof {
            assert(shown == records[k as int]);
            assert(loop_views(loops@) =~= loop_views(so_far).push(shown));
            assert(loop_views(loops@) =~= loop_views(start) + records.take(k + 1));
            assert forall|e: usize| #[trigger] referenced@.contains(e) <==> before.contains(e)
                || loops_refer_to(models.take(k + 1), e as int) by {
                lemma_refers_step(models, k as int, e as int);
                let list = boundary@[k as int].edge_indices@;
                if list.contains(e) {
                    assert(models[k as int].edges[list.index_of(e)] == e);
                }
                assert(marked.contains(e) <==> before.contains(e) || loops_refer_to(
                    models.take(k as int),
                    e as int,
                ));
            }
        }
        k += 1;
    }
    proof {
        assert(models.take(models.len() as int) =~= models);
        assert(records.take(records.len() as int) =~= records);
    }
    (edge_ids, loop_ids)
}

impl<C> Hierarchy<C> {
    pub fn new() -> (r: Hierarchy<C>)
        ensures
            r@ == Facts::<C>::empty(),
    {
        let r = Hierarchy {
            shells: Vec::new(),
            faces: Vec::new(),
            edges: Vec::new(),
            loops: Vec::new(),
        };
        assert(r@ =~= Facts::<C>::empty());
        r
    }

    /// Forgets all records.
    pub fn clear(&mut self)
        ensures
            final(self)@ == Facts::<C>::empty(),
    {
        self.shells.clear();
        self.faces.clear();
        self.edges.clear();
        self.loops.clear();
        assert(self@ =~= Facts::<C>::empty());
    }
}

impl<C: Copy> Hierarchy<C> {
    /// Adds the records of a shell behind those of the shells before: its
    /// faces with the number of triangles and the colour that the mesh gives
    /// them, its edges, its boundary loops, and the edges that no boundary
    /// refers to.
    pub fn add_shell<M, P, D, A>(
        &mut self,
        shell: &StepShell<M, P, D, A>,
        triangles: &[usize],
        colors: &[C],
        default_color: C,
        vertex_face_index: Vec<u32>,
    )
        requires
            can_add(old(self)@, shell.model()),
        ensures
            final(self)@ == with_shell(
                old(self)@,
                shell.model(),
                MeshFacts {
                    triangles: triangles@,
                    colors: colors@,
                    default_color,
                    vertex_face_index: vertex_face_index@,
                },
            ),
    {
        let ghost facts = self@;
        let ghost m = shell.model();
        let ghost mesh = MeshFacts {
            triangles: triangles@,
            colors: colors@,
            default_color,
            vertex_face_index: vertex_face_index@,
        };
        let ghost target = with_shell(facts, m, mesh);
        let base_face: usize = self.faces.len();
        let base_edge: usize = self.edges.len();
        let ghost base_loop = self.loops@.len() as int;
        let mut referenced: HashSet<usize> = HashSet::new();
        let mut face_ids: Vec<usize> = Vec::new();
        let ghost new_faces = Seq::new(
            m.faces.len(),
            |i: int| new_face(m, i, mesh, base_face as int, base_loop, base_edge as int),
        );
        let mut i: usize = 0;
        proof {
            assert(m.faces.take(0) =~= Seq::empty());
            assert(facts.faces + new_faces.take(0) =~= facts.faces);
            assert(facts.loops + new_loops(
                m.faces.take(0),
                m.id,
                base_face as int,
                base_loop,
                base_edge as int,
            ) =~= facts.loops);
        }
        while i < shell.faces.len()
            invariant
                i <= shell.faces.len(),
                m == shell.model(),
                can_add(facts, m),
                base_face == facts.faces.len(),
                base_edge == facts.edges.len(),
                base_loop == facts.loops.len(),
                mesh.triangles == triangles@,
                mesh.colors == colors@,
                mesh.default_color == default_color,
                new_faces == Seq::new(
                    m.faces.len(),
                    |k: int| new_face(m, k, mesh, base_face as int, base_loop, base_edge as int),
                ),
                self@.shells == facts.shells,
                self@.edges == facts.edges,
                self@.faces == facts.faces + new_faces.take(i as int),
                self@.loops == facts.loops + new_loops(
                    m.faces.take(i as int),
                    m.id,
                    base_face as int,
                    base_loop,
                    base_edge as int,
                ),
                self.loops@.len() == base_loop + loop_count(m.faces.take(i as int)),
                face_ids@.len() == i,
                forall|k: int| 0 <= k < i ==> #[trigger] face_ids@[k] == base_face + k,
                forall|e: usize| #[trigger]
                    referenced@.contains(e) <==> refers_to(m.faces.take(i as int), e as int),
            decreases shell.faces.len() - i,
        {
            let face: &StepFace<M> = &shell.faces[i];
            let face_id: usize = base_face + i;
            let ghost prefix = m.faces.take(i as int);
            let ghost longer = m.faces.take(i + 1);
            let ghost before = self@;
            let ghost old_faces = self.faces@;
            let ghost marked = referenced@;
            let ghost loops_before = self.loops@;
            proof {
                assert(longer.drop_last() =~= prefix);
                assert(m.faces[i as int] == face.model());
                assert(longer.last() == face.model());
                lemma_loop_count_grows(m.faces, i + 1);
                assert(face.model().loops == loop_models(face.boundary_loops@));
                assert forall|l: int, e: int|
                    0 <= l < face.boundary_loops@.len() && 0 <= e
                        < face.boundary_loops@[l].edge_indices@.len() implies base_edge + (
                #[trigger] face.boundary_loops@[l].edge_indices@[e]) <= usize::MAX by {
                    assert(m.faces[i as int].loops[l].edges[e]
                        == face.boundary_loops@[l].edge_indices@[e]);
                }
            }
            let (edge_ids, loop_ids) = add_loops(
                &mut self.loops,
                &face.boundary_loops,
                face_id,
                shell.id,
                base_edge,
                &mut referenced,
            );
            let count: usize = if i < triangles.len() {
                triangles[i]
            } else {
                0
            };
            let color: C = if i < colors.len() {
                colors[i]
            } else {
                default_color
            };
            let record = FaceRecord {
                id: face_id,
                shell_id: shell.id,
                source_face_id: face.id,
                name: face.name.clone(),
                triangles: count,
                visible: true,
                ui_color: color,
                edge_ids,
                loop_ids,
                annotation: 0,
            };
            let ghost shown = record@;
            self.faces.push(record);
            face_ids.push(face_id);
            proof {
                let expected = new_faces[i as int];
                assert(shown.loop_ids =~= expected.loop_ids);
                assert(shown == expected);
                assert(self@.faces =~= before.faces.push(shown));
                assert(self@.faces =~= facts.faces + new_faces.take(i + 1));
                let model_face = FaceModel {
                    id: 0,
                    name: Seq::empty(),
                    loops: loop_models(face.boundary_loops@),
                };
                assert(face_loops(
                    model_face,
                    face_id as int,
                    shell.id,
                    loops_before.len() as int,
                    base_edge as int,
                ) =~= face_loops(
                    longer.last(),
                    base_face + prefix.len(),
                    m.id,
                    base_loop + loop_count(prefix),
                    base_edge as int,
                ));
                assert(self@.loops == loop_views(self.loops@));
                assert(before.loops == loop_views(loops_before));
                assert(self@.loops =~= facts.loops + new_loops(
                    longer,
                    m.id,
                    base_face as int,
                    base_loop,
                    base_edge as int,
                ));
                assert(self.loops@.len() == loop_views(self.loops@).len());
                assert(self.loops@.len() == base_loop + loop_count(longer));
                assert forall|e: usize| #[trigger] referenced@.contains(e) <==> refers_to(
                    longer,
                    e as int,
                ) by {
                    lemma_faces_refer_step(m.faces, i as int, e as int);
                    assert(marked.contains(e) <==> refers_to(prefix, e as int));
                }
            }
            i += 1;
        }
        assert(m.faces.take(m.faces.len() as int) =~= m.faces);
        assert(new_faces.take(new_faces.len() as int) =~= new_faces);
        let ghost with_faces = self@;
        let ghost new_edges = Seq::new(m.edges.len(), |k: int| new_edge(m, k, base_edge as int));
        let mut standalone_edge_ids: Vec<usize> = Vec::new();
        let mut j: usize = 0;
        assert(facts.edges + new_edges.take(0) =~= facts.edges);
        while j < shell.curve_edges.len()
            invariant
                j <= shell.curve_edges.len(),
                m == shell.model(),
                can_add(facts, m),
                base_edge == facts.edges.len(),
                new_edges == Seq::new(m.edges.len(), |k: int| new_edge(m, k, base_edge as int)),
                self@.shells == with_faces.shells,
                self@.faces == with_faces.faces,
                self@.loops == with_faces.loops,
                self@.edges == facts.edges + new_edges.take(j as int),
                standalone_edge_ids@ == standalone(m.faces, j as int, base_edge as int),
                forall|e: usize| #[trigger]
                    referenced@.contains(e) <==> refers_to(m.faces, e as int),
            decreases shell.curve_edges.len() - j,
        {
            let ghost before = self@;
            let id: usize = base_edge + j;
            let record = EdgeRecord {
                id,
                shell_id: shell.id,
                name: edge_title(j, shell.curve_edges[j].curve_type.as_str()),
                point_count: shell.curve_edges[j].points.len(),
                visible: true,
            };
            let ghost shown = record@;
            self.edges.push(record);
            if !referenced.contains(&j) {
                standalone_edge_ids.push(id);
            }
            proof {
                assert(m.edges[j as int] == shell.curve_edges@[j as int].model());
                assert(shown == new_edges[j as int]);
                assert(self@.edges =~= before.edges.push(shown));
                assert(self@.edges =~= facts.edges + new_edges.take(j + 1));
                assert(referenced@.contains(j) <==> refers_to(m.faces, j as int));
            }
            j += 1;
        }
        assert(new_edges.take(new_edges.len() as int) =~= new_edges);
        let ghost with_edges = self@;
        let record = ShellRecord {
            id: shell.id,
            name: shell.name.clone(),
            expanded: false,
            visible: true,
            failed_faces: shell.failed_faces,
            face_ids,
            standalone_edge_ids,
            vertex_face_index,
        };
        let ghost shown = record@;
        self.shells.push(record);
        proof {
            assert(shown.face_ids =~= Seq::new(m.faces.len(), |k: int| (base_face + k) as usize));
            assert(self@.shells =~= facts.shells.push(shown));
            assert(self@ =~= target);
        }
    }
}

} // verus!
