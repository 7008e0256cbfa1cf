//! What the records of a shell say, told on the shell itself.

use vstd::prelude::*;

use crate::model::{FaceModel, LoopModel, ShellModel};
use crate::records;
use crate::records::{Facts, MeshFacts};

verus! {

/// The number of loops of the first faces.
pub open spec fn loops_before(faces: Seq<FaceModel>, n: int) -> int
    decreases n,
{
    if n <= 0 {
        0
    } else {
        loops_before(faces, n - 1) + faces[n - 1].loops.len()
    }
}

/// The number of edge uses of the first loops.
pub open spec fn uses_before(loops: Seq<LoopModel>, n: int) -> int
    decreases n,
{
    if n <= 0 {
        0
    } else {
        uses_before(loops, n - 1) + loops[n - 1].edges.len()
    }
}

proof fn lemma_loop_count(faces: Seq<FaceModel>, n: int)
    requires
        0 <= n <= faces.len(),
    ensures
        records::loop_count(faces.take(n)) == loops_before(faces, n),
        loops_before(faces, n) >= 0,
    decreases n,
{
    if n > 0 {
        lemma_loop_count(faces, n - 1);
        assert(faces.take(n).drop_last() =~= faces.take(n - 1));
    }
}

proof fn lemma_uses_of_fewer(loops: Seq<LoopModel>, n: int)
    requires
        0 <= n < loops.len(),
    ensures
        uses_before(loops.drop_last(), n) == uses_before(loops, n),
        uses_before(loops, n) >= 0,
    decreases n,
{
    if n > 0 {
        lemma_uses_of_fewer(loops, n - 1);
    }
}

proof fn lemma_loop_edges(loops: Seq<LoopModel>, base: int, k: int, e: int)
    requires
        0 <= k < loops.len(),
        0 <= e < loops[k].edges.len(),
    ensures
        records::loop_edges(loops, base).len() == uses_before(loops, loops.len() as int),
        0 <= uses_before(loops, k) + e < records::loop_edges(loops, base).len(),
        records::loop_edges(loops, base)[uses_before(loops, k) + e] == (base
            + loops[k].edges[e]) as usize,
    decreases loops.len(),
{
    let init = loops.drop_last();
    let last = loops.len() - 1;
    lemma_uses_of_fewer(loops, last);
    lemma_uses_of_fewer(loops, k);
    lemma_use_total(init, base);
    if k < last {
        assert(init[k] == loops[k]);
        lemma_loop_edges(init, base, k, e);
    }
}

proof fn lemma_use_total(loops: Seq<LoopModel>, base: int)
    ensures
        records::loop_edges(loops, base).len() == uses_before(loops, loops.len() as int),
    decreases loops.len(),
{
    if loops.len() > 0 {
        lemma_use_total(loops.drop_last(), base);
        lemma_uses_of_fewer(loops, loops.len() - 1);
    }
}

/// Records that were there before stay as they are when a shell is added.
pub proof fn law_earlier_records_stay<C>(facts: Facts<C>, shell: ShellModel, mesh: MeshFacts<C>)
    ensures
        ({
            let now = records::with_shell(facts, shell, mesh);
            &&& facts.shells.is_prefix_of(now.shells)
            &&& facts.faces.is_prefix_of(now.faces)
            &&& facts.edges.is_prefix_of(now.edges)
            &&& facts.loops.is_prefix_of(now.loops)
            &&& now.shells.len() == facts.shells.len() + 1
            &&& now.faces.len() == facts.faces.len() + shell.faces.len()
            &&& now.edges.len() == facts.edges.len() + shell.edges.len()
            &&& now.loops.len() == facts.loops.len() + loops_before(
                shell.faces,
                shell.faces.len() as int,
            )
        }),
{
    let now = records::with_shell(facts, shell, mesh);
    let n = shell.faces.len() as int;
    records::lemma_new_loops_length(
        shell.faces,
        shell.id,
        facts.faces.len() as int,
        facts.loops.len() as int,
        facts.edges.len() as int,
    );
    lemma_loop_count(shell.faces, n);
    assert(shell.faces.take(n) =~= shell.faces);
    assert(now.shells.take(facts.shells.len() as int) =~= facts.shells);
    assert(now.faces.take(facts.faces.len() as int) =~= facts.faces);
    assert(now.edges.take(facts.edges.len() as int) =~= facts.edges);
    assert(now.loops.take(facts.loops.len() as int) =~= facts.loops);
}

/// The new record of a shell says what the shell is, and lists its faces in
/// their order.
pub proof fn law_shell_record_lists_its_faces<C>(
    facts: Facts<C>,
    shell: ShellModel,
    mesh: MeshFacts<C>,
    i: int,
)
    requires
        records::can_add(facts, shell),
        0 <= i < shell.faces.len(),
    ensures
        ({
            let now = records::with_shell(facts, shell, mesh);
            let s = now.shells[facts.shells.len() as int];
            let f = now.faces[s.face_ids[i] as int];
            &&& s.id == shell.id
            &&& s.name == shell.name
            &&& s.visible && !s.expanded
            &&& s.failed_faces == shell.failed_faces
            &&& s.vertex_face_index == mesh.vertex_face_index
            &&& s.face_ids.len() == shell.faces.len()
            &&& s.face_ids[i] == facts.faces.len() + i
            &&& f.id == s.face_ids[i]
            &&& f.shell_id == shell.id
            &&& f.source_face_id == shell.faces[i].id
            &&& f.name == shell.faces[i].name
            &&& f.visible && f.annotation == 0
            &&& i < mesh.triangles.len() ==> f.triangles == mesh.triangles[i]
            &&& i >= mesh.triangles.len() ==> f.triangles == 0
            &&& i < mesh.colors.len() ==> f.ui_color == mesh.colors[i]
            &&& i >= mesh.colors.len() ==> f.ui_color == mesh.default_color
        }),
{
    let now = records::with_shell(facts, shell, mesh);
    let base = facts.faces.len() as int;
    assert(now.faces[base + i].id == base + i);
}

/// The loops of a face are those of the face of the shell, the first of them
/// the outer one, and each edge of a loop is the record of the edge of the
/// shell.
pub proof fn law_face_record_has_its_loops<C>(
    facts: Facts<C>,
    shell: ShellModel,
    mesh: MeshFacts<C>,
    i: int,
    k: int,
    e: int,
)
    requires
        records::can_add(facts, shell),
        0 <= i < shell.faces.len(),
        0 <= k < shell.faces[i].loops.len(),
        0 <= e < shell.faces[i].loops[k].edges.len(),
    ensures
        ({
            let now = records::with_shell(facts, shell, mesh);
            let f = now.faces[facts.faces.len() + i];
            let l = now.loops[f.loop_ids[k] as int];
            let edge = shell.faces[i].loops[k].edges[e];
            &&& f.loop_ids.len() == shell.faces[i].loops.len()
            &&& f.loop_ids[k] == facts.loops.len() + loops_before(shell.faces, i) + k
            &&& l.id == f.loop_ids[k]
            &&& l.face_id == f.id
            &&& l.shell_id == shell.id
            &&& l.is_outer <==> k == 0
            &&& l.trimming_active
            &&& l.edge_ids.len() == shell.faces[i].loops[k].edges.len()
            &&& l.edge_ids[e] == facts.edges.len() + edge
            &&& f.edge_ids[uses_before(shell.faces[i].loops, k) + e] == l.edge_ids[e]
        }),
{
    let now = records::with_shell(facts, shell, mesh);
    let base_face = facts.faces.len() as int;
    let base_edge = facts.edges.len() as int;
    let base_loop = facts.loops.len() as int;
    records::lemma_new_loop_at(shell.faces, shell.id, base_face, base_loop, base_edge, i, k);
    records::lemma_loop_count_grows(shell.faces, i);
    lemma_loop_count(shell.faces, i);
    let at = loops_before(shell.faces, i) + k;
    let loops = records::new_loops(shell.faces, shell.id, base_face, base_loop, base_edge);
    records::lemma_new_loops_length(shell.faces, shell.id, base_face, base_loop, base_edge);
    assert(now.loops[base_loop + at] == loops[at]);
    assert(now.faces[base_face + i] == records::new_face(
        shell,
        i,
        mesh,
        base_face,
        base_loop,
        base_edge,
    ));
    lemma_loop_edges(shell.faces[i].loops, base_edge, k, e);
    assert(base_edge + shell.faces[i].loops[k].edges[e] <= usize::MAX);
}

/// The record of an edge is that of the edge of the shell at its place.
pub proof fn law_edge_record_is_its_edge<C>(
    facts: Facts<C>,
    shell: ShellModel,
    mesh: MeshFacts<C>,
    e: int,
)
    requires
        0 <= e < shell.edges.len(),
    ensures
        ({
            let edge = records::with_shell(facts, shell, mesh).edges[facts.edges.len() + e];
            &&& edge.id == facts.edges.len() + e
            &&& edge.shell_id == shell.id
            &&& edge.point_count == shell.edges[e].points
            &&& edge.visible
        }),
{
    let now = records::with_shell(facts, shell, mesh);
    assert(now.edges[facts.edges.len() + e] == records::new_edge(
        shell,
        e,
        facts.edges.len() as int,
    ));
}

proof fn lemma_standalone(faces: Seq<FaceModel>, n: int, base: int, e: int)
    requires
        0 <= base,
        0 <= n,
        base + n <= usize::MAX,
        0 <= e < n,
    ensures
        records::standalone(faces, n, base).contains((base + e) as usize) <==> !records::refers_to(
            faces,
            e,
        ),
        forall|j: int|
            0 <= j < records::standalone(faces, n, base).len() ==> base
                <= #[trigger] records::standalone(faces, n, base)[j] < base + n,
    decreases n,
{
    let now = records::standalone(faces, n, base);
    let before = records::standalone(faces, n - 1, base);
    if n > 1 {
        lemma_standalone(faces, n - 1, base, if e < n - 1 { e } else { 0 });
    } else {
        assert(before.len() == 0);
    }
    let last = (base + n - 1) as usize;
    if e < n - 1 {
        if before.contains((base + e) as usize) {
            assert(now[before.index_of((base + e) as usize)] == (base + e) as usize);
        }
        if now.contains((base + e) as usize) {
            let j = now.index_of((base + e) as usize);
            if j < before.len() {
                assert(before[j] == (base + e) as usize);
            }
        }
    } else {
        if !records::refers_to(faces, n - 1) {
            assert(now[now.len() - 1] == last);
        } else if now.contains(last) {
            let j = now.index_of(last);
            assert(before[j] == last);
        }
    }
    assert forall|j: int| 0 <= j < now.len() implies base <= #[trigger] now[j] < base + n by {
        if j < before.len() {
            assert(now[j] == before[j]);
        }
    }
}

/// The edges that a shell lists by themselves are those that no boundary of its
/// faces uses.
pub proof fn law_single_edges_bound_no_face<C>(
    facts: Facts<C>,
    shell: ShellModel,
    mesh: MeshFacts<C>,
    e: int,
)
    requires
        records::can_add(facts, shell),
        0 <= e < shell.edges.len(),
    ensures
        records::with_shell(facts, shell, mesh).shells[facts.shells.len() as int].standalone_edge_ids.contains(
            (facts.edges.len() + e) as usize,
        ) <==> forall|f: int, l: int, u: int|
            0 <= f < shell.faces.len() && 0 <= l < shell.faces[f].loops.len() && 0 <= u
                < shell.faces[f].loops[l].edges.len() ==> #[trigger] shell.faces[f].loops[l].edges[u]
                != e,
{
    lemma_standalone(shell.faces, shell.edges.len() as int, facts.edges.len() as int, e);
}

} // verus!
