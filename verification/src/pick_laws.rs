//! Lists that are picked out of others: each item that belongs there is there,
//! in its order, and nothing else.

use vstd::prelude::*;

use crate::display;
use crate::display::FaceColor;
use crate::mesh::FaceChunk;
use crate::nsi_export;
use crate::nsi_export::NsiBrepSurfaceData;
use crate::nsi_overlay;
use crate::nsi_scene;
use crate::nsi_scene::{CallModel, TrackedModel};
use crate::panel;
use crate::prepare;
use crate::prepare::OutlineFace;
use crate::previews;
use crate::previews::PreviewEntry;
use crate::recolor;
use crate::recolor::ShellColors;
use crate::records;
use crate::records::{Facts, Hierarchy, Selection};
use crate::shell_mesh;
use crate::surface_net;
use crate::text;
use crate::trim_pieces;
use crate::trim_pieces::{TrimCurveSource, TrimEdgeCurve};

verus! {

/// How many of the first `n` places are chosen.
pub open spec fn hits(chosen: spec_fn(int) -> bool, n: int) -> int
    decreases n,
{
    if n <= 0 {
        0
    } else if chosen(n - 1) {
        hits(chosen, n - 1) + 1
    } else {
        hits(chosen, n - 1)
    }
}

/// The list holds the items of the chosen ones among the first `n` places, in
/// the order of the places.
pub open spec fn picks<T>(
    list: Seq<T>,
    n: int,
    chosen: spec_fn(int) -> bool,
    item: spec_fn(int) -> T,
) -> bool {
    &&& list.len() == hits(chosen, n)
    &&& forall|i: int| 0 <= i < n && #[trigger] chosen(i) ==> list[hits(chosen, i)] == item(i)
}

proof fn lemma_hits(chosen: spec_fn(int) -> bool, i: int, n: int)
    requires
        0 <= i <= n,
    ensures
        0 <= hits(chosen, i) <= hits(chosen, n) <= n,
        i < n && chosen(i) ==> hits(chosen, i) < hits(chosen, n),
    decreases n,
{
    if i < n {
        lemma_hits(chosen, i, n - 1);
    } else if n > 0 {
        lemma_hits(chosen, n - 1, n - 1);
    }
}

pub proof fn lemma_picks_none<T>(chosen: spec_fn(int) -> bool, item: spec_fn(int) -> T)
    ensures
        picks(Seq::<T>::empty(), 0, chosen, item),
{
}

pub proof fn lemma_picks_next<T>(
    list: Seq<T>,
    n: int,
    chosen: spec_fn(int) -> bool,
    item: spec_fn(int) -> T,
)
    requires
        0 <= n,
        picks(list, n, chosen, item),
    ensures
        chosen(n) ==> picks(list.push(item(n)), n + 1, chosen, item),
        !chosen(n) ==> picks(list, n + 1, chosen, item),
{
    if chosen(n) {
        let longer = list.push(item(n));
        assert forall|i: int| 0 <= i < n + 1 && #[trigger] chosen(i) implies longer[hits(chosen, i)]
            == item(i) by {
            if i < n {
                lemma_hits(chosen, i, n);
            }
        }
    } else {
        assert forall|i: int| 0 <= i < n + 1 && #[trigger] chosen(i) implies list[hits(chosen, i)]
            == item(i) by {
            assert(i < n);
        }
    }
}

proof fn lemma_planned<M, T>(faces: Seq<OutlineFace<Option<M>, T>>, n: int)
    requires
        0 <= n <= faces.len(),
    ensures
        picks(
            prepare::planned_faces(faces.take(n)),
            n,
            |i: int| faces[i].surface is Some,
            |i: int| prepare::face_plan(i, faces[i]),
        ),
        prepare::failed_count(faces.take(n)) + prepare::planned_faces(faces.take(n)).len() == n,
    decreases n,
{
    let chosen = |i: int| faces[i].surface is Some;
    let item = |i: int| prepare::face_plan(i, faces[i]);
    if n == 0 {
        lemma_picks_none(chosen, item);
    } else {
        lemma_planned(faces, n - 1);
        assert(faces.take(n).drop_last() =~= faces.take(n - 1));
        lemma_picks_next(prepare::planned_faces(faces.take(n - 1)), n - 1, chosen, item);
    }
}

/// The faces with a mesh are planned, each under the number of its place, and
/// all others are counted as failed.
pub proof fn law_faces_with_meshes_are_planned<M, T>(faces: Seq<OutlineFace<Option<M>, T>>)
    ensures
        picks(
            prepare::planned_faces(faces),
            faces.len() as int,
            |i: int| faces[i].surface is Some,
            |i: int| prepare::face_plan(i, faces[i]),
        ),
        prepare::failed_count(faces) + prepare::planned_faces(faces).len() == faces.len(),
{
    lemma_planned(faces, faces.len() as int);
    assert(faces.take(faces.len() as int) =~= faces);
}

/// The plan of a face has the number of its place and is named by it, counted
/// from one. It has one loop for each boundary, with the edges of that boundary
/// in their order, and only the first of them is the outer one. A face that is
/// not oriented like its surface is turned inside out.
pub proof fn law_plan_has_boundaries_of_face<M, T>(at: int, face: OutlineFace<Option<M>, T>)
    requires
        0 <= at < usize::MAX,
    ensures
        ({
            let plan = prepare::face_plan(at, face);
            &&& plan.face.id == at
            &&& plan.face.name == "Face "@ + text::decimal((at + 1) as nat)
            &&& plan.inverted != face.orientation
            &&& plan.face.loops.len() == face.boundaries@.len()
            &&& forall|b: int|
                0 <= b < face.boundaries@.len() ==> {
                    let l = #[trigger] plan.face.loops[b];
                    &&& l.is_outer <==> b == 0
                    &&& l.edges.len() == face.boundaries@[b]@.len()
                    &&& forall|e: int|
                        0 <= e < l.edges.len() ==> #[trigger] l.edges[e]
                            == face.boundaries@[b]@[e].index
                }
        }),
{
    reveal_strlit("Face ");
    reveal_strlit("Face");
    reveal_strlit(" ");
    assert("Face"@ + " "@ =~= "Face "@);
}

proof fn lemma_kept(count: nat, active: Seq<usize>, n: int)
    requires
        0 <= n <= active.len(),
    ensures
        picks(
            prepare::kept_boundaries(count, active.take(n)),
            n,
            |i: int| active[i] < count,
            |i: int| active[i],
        ),
    decreases n,
{
    let chosen = |i: int| active[i] < count;
    let item = |i: int| active[i];
    if n == 0 {
        lemma_picks_none(chosen, item);
    } else {
        lemma_kept(count, active, n - 1);
        assert(active.take(n).drop_last() =~= active.take(n - 1));
        lemma_picks_next(prepare::kept_boundaries(count, active.take(n - 1)), n - 1, chosen, item);
    }
}

/// Of the boundaries that are to stay, those that there are stay, in the order
/// in which they are given.
pub proof fn law_active_boundaries_stay(count: nat, active: Seq<usize>)
    ensures
        picks(
            prepare::kept_boundaries(count, active),
            active.len() as int,
            |i: int| active[i] < count,
            |i: int| active[i],
        ),
{
    lemma_kept(count, active, active.len() as int);
    assert(active.take(active.len() as int) =~= active);
}

proof fn lemma_waiting<Q, D>(entries: Seq<PreviewEntry<Q, D>>, n: int)
    requires
        0 <= n <= entries.len(),
    ensures
        picks(
            previews::waiting(entries.take(n)),
            n,
            |i: int| entries[i].status is Pending,
            |i: int| i as usize,
        ),
    decreases n,
{
    let chosen = |i: int| entries[i].status is Pending;
    let item = |i: int| i as usize;
    if n == 0 {
        lemma_picks_none(chosen, item);
    } else {
        lemma_waiting(entries, n - 1);
        assert(entries.take(n).drop_last() =~= entries.take(n - 1));
        lemma_picks_next(previews::waiting(entries.take(n - 1)), n - 1, chosen, item);
    }
}

/// The previews that wait are started, each once and the first ones first.
pub proof fn law_waiting_previews_are_started<Q, D>(entries: Seq<PreviewEntry<Q, D>>)
    ensures
        picks(
            previews::waiting(entries),
            entries.len() as int,
            |i: int| entries[i].status is Pending,
            |i: int| i as usize,
        ),
{
    lemma_waiting(entries, entries.len() as int);
    assert(entries.take(entries.len() as int) =~= entries);
}

/// The previews in sight that are ready are rendered, the first ones first.
pub proof fn law_ready_previews_are_rendered<Q, D>(
    entries: Seq<PreviewEntry<Q, D>>,
    first: int,
    end: int,
)
    requires
        0 <= first,
    ensures
        picks(
            previews::ready_places(entries, first, end),
            end,
            |i: int| first <= i < entries.len() && entries[i].status is Ready,
            |i: int| i as usize,
        ),
    decreases end,
{
    let chosen = |i: int| first <= i < entries.len() && entries[i].status is Ready;
    let item = |i: int| i as usize;
    if end <= 0 {
        lemma_picks_none(chosen, item);
    } else {
        law_ready_previews_are_rendered(entries, first, end - 1);
        lemma_picks_next(previews::ready_places(entries, first, end - 1), end - 1, chosen, item);
    }
}

proof fn lemma_positions<V>(positions: Seq<V>, face_index: Seq<u32>, face: usize, n: int)
    requires
        0 <= n <= positions.len(),
    ensures
        picks(
            display::positions_of(positions.take(n), face_index, face),
            n,
            |i: int| i < face_index.len() && face_index[i] == face,
            |i: int| positions[i],
        ),
    decreases n,
{
    let chosen = |i: int| i < face_index.len() && face_index[i] == face;
    let item = |i: int| positions[i];
    if n == 0 {
        lemma_picks_none(chosen, item);
    } else {
        lemma_positions(positions, face_index, face, n - 1);
        assert(positions.take(n).drop_last() =~= positions.take(n - 1));
        lemma_picks_next(
            display::positions_of(positions.take(n - 1), face_index, face),
            n - 1,
            chosen,
            item,
        );
    }
}

/// The positions of a face are those of its vertices, in their order.
pub proof fn law_positions_of_face<V>(positions: Seq<V>, face_index: Seq<u32>, face: usize)
    ensures
        picks(
            display::positions_of(positions, face_index, face),
            positions.len() as int,
            |i: int| i < face_index.len() && face_index[i] == face,
            |i: int| positions[i],
        ),
{
    lemma_positions(positions, face_index, face, positions.len() as int);
    assert(positions.take(positions.len() as int) =~= positions);
}

/// Each face is shown in the colour of its own where the file gives one, and
/// else in that of its shell, as far as colours of the file are wanted. Random
/// colours go by the number of the face.
pub proof fn law_faces_take_their_colours<C>(
    ids: Seq<usize>,
    colors: ShellColors<C>,
    random: bool,
    step: bool,
    i: int,
)
    requires
        0 <= i < ids.len(),
        i < colors.faces@.len(),
    ensures
        ({
            let list = recolor::colored_faces(ids, colors, random, step);
            let (id, shown) = list[i];
            &&& list.len() <= ids.len() && list.len() <= colors.faces@.len()
            &&& list.len() == ids.len() || list.len() == colors.faces@.len()
            &&& id == ids[i]
            &&& !random && !step ==> shown is Neutral
            &&& random && !step ==> shown == FaceColor::<C>::Random(id)
            &&& step && colors.faces@[i] is Some ==> (shown == if random {
                FaceColor::Mixed(colors.faces@[i]->0, id)
            } else {
                FaceColor::Step(colors.faces@[i]->0)
            })
            &&& step && colors.faces@[i] is None && colors.shell is Some ==> (shown == if random {
                FaceColor::Mixed(colors.shell->0, id)
            } else {
                FaceColor::Step(colors.shell->0)
            })
            &&& step && colors.faces@[i] is None && colors.shell is None ==> (shown == if random {
                FaceColor::<C>::Random(id)
            } else {
                FaceColor::Neutral
            })
        }),
{
}

proof fn lemma_recolors<C, U>(
    h: Hierarchy<U>,
    shells: Seq<ShellColors<C>>,
    random: bool,
    step: bool,
    n: int,
)
    requires
        0 <= n <= shells.len(),
    ensures
        picks(
            recolor::recolors(h, shells.take(n), random, step),
            n,
            |i: int| h@.shell_at(shells[i].shell_id) < h.shells@.len(),
            |i: int|
                (
                    h@.shell_at(shells[i].shell_id),
                    recolor::colored_faces(
                        h.shells@[h@.shell_at(shells[i].shell_id)].face_ids@,
                        shells[i],
                        random,
                        step,
                    ),
                ),
        ),
    decreases n,
{
    let chosen = |i: int| h@.shell_at(shells[i].shell_id) < h.shells@.len();
    let item = |i: int|
        (
            h@.shell_at(shells[i].shell_id),
            recolor::colored_faces(
                h.shells@[h@.shell_at(shells[i].shell_id)].face_ids@,
                shells[i],
                random,
                step,
            ),
        );
    if n == 0 {
        lemma_picks_none(chosen, item);
    } else {
        lemma_recolors(h, shells, random, step, n - 1);
        assert(shells.take(n).drop_last() =~= shells.take(n - 1));
        lemma_picks_next(
            recolor::recolors(h, shells.take(n - 1), random, step),
            n - 1,
            chosen,
            item,
        );
    }
}

/// The shells that have a record are coloured anew, each by the faces of its
/// own record.
pub proof fn law_shells_with_records_are_recoloured<C, U>(
    h: Hierarchy<U>,
    shells: Seq<ShellColors<C>>,
    random: bool,
    step: bool,
)
    ensures
        picks(
            recolor::recolors(h, shells, random, step),
            shells.len() as int,
            |i: int| h@.shell_at(shells[i].shell_id) < h.shells@.len(),
            |i: int|
                (
                    h@.shell_at(shells[i].shell_id),
                    recolor::colored_faces(
                        h.shells@[h@.shell_at(shells[i].shell_id)].face_ids@,
                        shells[i],
                        random,
                        step,
                    ),
                ),
        ),
{
    lemma_recolors(h, shells, random, step, shells.len() as int);
    assert(shells.take(shells.len() as int) =~= shells);
}

proof fn lemma_changes<C>(
    facts: Facts<C>,
    faces: Seq<records::FaceFacts<C>>,
    pushed: Seq<usize>,
    told: Map<u128, bool>,
    n: int,
)
    requires
        0 <= n <= faces.len(),
    ensures
        picks(
            nsi_overlay::changes(facts, faces.take(n), pushed, told),
            n,
            |i: int|
                pushed.contains(faces[i].shell_id) && told.get(
                    nsi_overlay::face_key(faces[i].shell_id, faces[i].source_face_id),
                ) != Some(faces[i].visible && facts.shell_visible(faces[i].shell_id)),
            |i: int|
                (
                    faces[i].shell_id,
                    faces[i].source_face_id,
                    faces[i].visible && facts.shell_visible(faces[i].shell_id),
                ),
        ),
    decreases n,
{
    let chosen = |i: int|
        pushed.contains(faces[i].shell_id) && told.get(
            nsi_overlay::face_key(faces[i].shell_id, faces[i].source_face_id),
        ) != Some(faces[i].visible && facts.shell_visible(faces[i].shell_id));
    let item = |i: int|
        (
            faces[i].shell_id,
            faces[i].source_face_id,
            faces[i].visible && facts.shell_visible(faces[i].shell_id),
        );
    if n == 0 {
        lemma_picks_none(chosen, item);
    } else {
        lemma_changes(facts, faces, pushed, told, n - 1);
        assert(faces.take(n).drop_last() =~= faces.take(n - 1));
        lemma_picks_next(
            nsi_overlay::changes(facts, faces.take(n - 1), pushed, told),
            n - 1,
            chosen,
            item,
        );
    }
}

/// The renderer is told of those faces of the shells that it has whose
/// visibility it was not told, or told otherwise: whether the face and its shell
/// are to be seen.
pub proof fn law_changed_faces_are_told<C>(
    facts: Facts<C>,
    faces: Seq<records::FaceFacts<C>>,
    pushed: Seq<usize>,
    told: Map<u128, bool>,
)
    ensures
        picks(
            nsi_overlay::changes(facts, faces, pushed, told),
            faces.len() as int,
            |i: int|
                pushed.contains(faces[i].shell_id) && told.get(
                    nsi_overlay::face_key(faces[i].shell_id, faces[i].source_face_id),
                ) != Some(faces[i].visible && facts.shell_visible(faces[i].shell_id)),
            |i: int|
                (
                    faces[i].shell_id,
                    faces[i].source_face_id,
                    faces[i].visible && facts.shell_visible(faces[i].shell_id),
                ),
        ),
{
    lemma_changes(facts, faces, pushed, told, faces.len() as int);
    assert(faces.take(faces.len() as int) =~= faces);
}

proof fn lemma_visibilities(
    scene: Seq<TrackedModel>,
    updates: Seq<(usize, usize, bool)>,
    n: int,
)
    requires
        0 <= n <= updates.len(),
    ensures
        picks(
            nsi_scene::visibility_calls(scene, updates.take(n)),
            n,
            |i: int| nsi_scene::faces_of(scene, updates[i].0).contains(updates[i].1),
            |i: int|
                CallModel::SetVisibility(
                    nsi_export::attrib_handle(updates[i].0, updates[i].1),
                    updates[i].2,
                ),
        ),
    decreases n,
{
    let chosen = |i: int| nsi_scene::faces_of(scene, updates[i].0).contains(updates[i].1);
    let item = |i: int|
        CallModel::SetVisibility(
            nsi_export::attrib_handle(updates[i].0, updates[i].1),
            updates[i].2,
        );
    if n == 0 {
        lemma_picks_none(chosen, item);
    } else {
        lemma_visibilities(scene, updates, n - 1);
        assert(updates.take(n).drop_last() =~= updates.take(n - 1));
        lemma_picks_next(
            nsi_scene::visibility_calls(scene, updates.take(n - 1)),
            n - 1,
            chosen,
            item,
        );
    }
}

/// Each face that the renderer has nodes for is shown or hidden as it is asked
/// for, in the order of what is asked.
pub proof fn law_known_faces_are_shown_or_hidden(
    scene: Seq<TrackedModel>,
    updates: Seq<(usize, usize, bool)>,
)
    ensures
        picks(
            nsi_scene::visibility_calls(scene, updates),
            updates.len() as int,
            |i: int| nsi_scene::faces_of(scene, updates[i].0).contains(updates[i].1),
            |i: int|
                CallModel::SetVisibility(
                    nsi_export::attrib_handle(updates[i].0, updates[i].1),
                    updates[i].2,
                ),
        ),
{
    lemma_visibilities(scene, updates, updates.len() as int);
    assert(updates.take(updates.len() as int) =~= updates);
}

proof fn lemma_sampled<F, P>(entries: Seq<TrimEdgeCurve<F, P>>, n: int)
    requires
        0 <= n <= entries.len(),
    ensures
        trim_pieces::sampled(entries.take(n)) == hits(
            |i: int| entries[i].source == TrimCurveSource::SampledFallback,
            n,
        ),
    decreases n,
{
    if n > 0 {
        lemma_sampled(entries, n - 1);
        assert(entries.take(n).drop_last() =~= entries.take(n - 1));
    }
}

/// The edges that had to be sampled are counted.
pub proof fn law_sampled_edges_are_counted<F, P>(entries: Seq<TrimEdgeCurve<F, P>>)
    ensures
        trim_pieces::sampled(entries) == hits(
            |i: int| entries[i].source == TrimCurveSource::SampledFallback,
            entries.len() as int,
        ),
{
    lemma_sampled(entries, entries.len() as int);
    assert(entries.take(entries.len() as int) =~= entries);
}

proof fn lemma_edge_lines<C>(
    facts: Facts<C>,
    ids: Seq<usize>,
    selection: Option<Selection>,
    n: int,
)
    requires
        0 <= n <= ids.len(),
    ensures
        picks(
            panel::lines_of_edges(facts, ids.take(n), selection),
            n,
            |i: int| ids[i] < facts.edges.len(),
            |i: int| panel::edge_line(facts.edges[ids[i] as int], selection),
        ),
    decreases n,
{
    let chosen = |i: int| ids[i] < facts.edges.len();
    let item = |i: int| panel::edge_line(facts.edges[ids[i] as int], selection);
    if n == 0 {
        lemma_picks_none(chosen, item);
    } else {
        lemma_edge_lines(facts, ids, selection, n - 1);
        assert(ids.take(n).drop_last() =~= ids.take(n - 1));
        lemma_picks_next(panel::lines_of_edges(facts, ids.take(n - 1), selection), n - 1, chosen, item);
    }
}

proof fn lemma_loop_lines<C>(
    facts: Facts<C>,
    ids: Seq<usize>,
    selection: Option<Selection>,
    n: int,
)
    requires
        0 <= n <= ids.len(),
    ensures
        picks(
            panel::lines_of_loops(facts, ids.take(n), selection),
            n,
            |i: int| ids[i] < facts.loops.len(),
            |i: int| panel::loop_line(facts, facts.loops[ids[i] as int], selection),
        ),
    decreases n,
{
    let chosen = |i: int| ids[i] < facts.loops.len();
    let item = |i: int| panel::loop_line(facts, facts.loops[ids[i] as int], selection);
    if n == 0 {
        lemma_picks_none(chosen, item);
    } else {
        lemma_loop_lines(facts, ids, selection, n - 1);
        assert(ids.take(n).drop_last() =~= ids.take(n - 1));
        lemma_picks_next(panel::lines_of_loops(facts, ids.take(n - 1), selection), n - 1, chosen, item);
    }
}

proof fn lemma_face_lines<C>(
    facts: Facts<C>,
    ids: Seq<usize>,
    selection: Option<Selection>,
    n: int,
)
    requires
        0 <= n <= ids.len(),
    ensures
        picks(
            panel::lines_of_faces(facts, ids.take(n), selection),
            n,
            |i: int| ids[i] < facts.faces.len(),
            |i: int| panel::face_line(facts, facts.faces[ids[i] as int], selection),
        ),
    decreases n,
{
    let chosen = |i: int| ids[i] < facts.faces.len();
    let item = |i: int| panel::face_line(facts, facts.faces[ids[i] as int], selection);
    if n == 0 {
        lemma_picks_none(chosen, item);
    } else {
        lemma_face_lines(facts, ids, selection, n - 1);
        assert(ids.take(n).drop_last() =~= ids.take(n - 1));
        lemma_picks_next(panel::lines_of_faces(facts, ids.take(n - 1), selection), n - 1, chosen, item);
    }
}

/// The panel has a line for each shell, and below it one for each of its faces
/// and one for each of its edges that bound no face, in their order. Each line
/// tells by its number whether it is the selected one.
pub proof fn law_panel_shows_shells<C>(facts: Facts<C>, selection: Option<Selection>, s: int)
    requires
        0 <= s < facts.shells.len(),
    ensures
        panel::panel_lines(facts, selection).len() == facts.shells.len(),
        ({
            let line = panel::panel_lines(facts, selection)[s];
            let shell = facts.shells[s];
            &&& line.id == shell.id
            &&& line.visible == shell.visible
            &&& line.expanded == shell.expanded
            &&& line.title == shell.name + " ("@ + text::decimal(shell.face_ids.len()) + " faces)"@
            &&& picks(
                line.faces,
                shell.face_ids.len() as int,
                |i: int| shell.face_ids[i] < facts.faces.len(),
                |i: int| panel::face_line(facts, facts.faces[shell.face_ids[i] as int], selection),
            )
            &&& picks(
                line.standalone,
                shell.standalone_edge_ids.len() as int,
                |i: int| shell.standalone_edge_ids[i] < facts.edges.len(),
                |i: int|
                    panel::edge_line(
                        facts.edges[shell.standalone_edge_ids[i] as int],
                        selection,
                    ),
            )
        }),
{
    let shell = facts.shells[s];
    let f = shell.face_ids.len() as int;
    let e = shell.standalone_edge_ids.len() as int;
    lemma_face_lines(facts, shell.face_ids, selection, f);
    lemma_edge_lines(facts, shell.standalone_edge_ids, selection, e);
    assert(shell.face_ids.take(f) =~= shell.face_ids);
    assert(shell.standalone_edge_ids.take(e) =~= shell.standalone_edge_ids);
}

/// Below the line of a face stands one for each of its loops, and below that
/// one for each edge of the loop, in their order.
pub proof fn law_panel_shows_faces<C>(
    facts: Facts<C>,
    selection: Option<Selection>,
    face: records::FaceFacts<C>,
    l: records::LoopFacts,
    e: records::EdgeFacts,
)
    ensures
        ({
            let line = panel::face_line(facts, face, selection);
            &&& line.id == face.id
            &&& line.visible == face.visible
            &&& line.title == face.name + " ("@ + text::decimal(face.triangles as nat) + " tris)"@
            &&& line.selected <==> selection == Some(Selection::Face(face.id as usize))
            &&& picks(
                line.loops,
                face.loop_ids.len() as int,
                |i: int| face.loop_ids[i] < facts.loops.len(),
                |i: int| panel::loop_line(facts, facts.loops[face.loop_ids[i] as int], selection),
            )
        }),
        ({
            let line = panel::loop_line(facts, l, selection);
            &&& line.id == l.id
            &&& line.trimming_active == l.trimming_active
            &&& line.selected <==> selection == Some(Selection::Loop(l.id as usize))
            &&& l.is_outer ==> line.title == "Outer Loop"@ + " ("@ + text::decimal(
                l.edge_ids.len(),
            ) + " edges)"@
            &&& !l.is_outer ==> line.title == "Hole"@ + " ("@ + text::decimal(l.edge_ids.len())
                + " edges)"@
            &&& picks(
                line.edges,
                l.edge_ids.len() as int,
                |i: int| l.edge_ids[i] < facts.edges.len(),
                |i: int| panel::edge_line(facts.edges[l.edge_ids[i] as int], selection),
            )
        }),
        ({
            let line = panel::edge_line(e, selection);
            &&& line.id == e.id
            &&& line.visible == e.visible
            &&& line.title == e.name + " ("@ + text::decimal(e.point_count) + " pts)"@
            &&& line.selected <==> selection == Some(Selection::Edge(e.id as usize))
        }),
{
    let n = face.loop_ids.len() as int;
    let m = l.edge_ids.len() as int;
    lemma_loop_lines(facts, face.loop_ids, selection, n);
    lemma_edge_lines(facts, l.edge_ids, selection, m);
    assert(face.loop_ids.take(n) =~= face.loop_ids);
    assert(l.edge_ids.take(m) =~= l.edge_ids);
}

/// The change at `i` is the last that speaks of its item.
pub open spec fn is_last_for(changes: Seq<(usize, bool)>, i: int) -> bool {
    forall|j: int| i < j < changes.len() ==> (#[trigger] changes[j]).0 != changes[i].0
}

/// A shell is seen or hidden as the last change that speaks of it says, and
/// keeps all else; one that no change speaks of stays as it is.
pub proof fn law_last_change_counts_for_shells(shells: Seq<records::ShellFacts>, changes: Seq<(usize, bool)>, at: int)
    requires
        0 <= at < shells.len(),
    ensures
        panel::shells_after(shells, changes).len() == shells.len(),
        forall|i: int|
            0 <= i < changes.len() && (#[trigger] changes[i]).0 == at && is_last_for(changes, i)
                ==> panel::shells_after(shells, changes)[at] == (records::ShellFacts {
                visible: changes[i].1,
                ..shells[at]
            }),
        (forall|i: int| 0 <= i < changes.len() ==> (#[trigger] changes[i]).0 != at) ==> panel::shells_after(
            shells,
            changes,
        )[at] == shells[at],
    decreases changes.len(),
{
    if changes.len() > 0 {
        let fewer = changes.drop_last();
        let after = panel::shells_after(shells, changes);
        law_last_change_counts_for_shells(shells, fewer, at);
        lemma_shells_keep(shells, fewer, at);
        assert forall|i: int|
            0 <= i < changes.len() && (#[trigger] changes[i]).0 == at && is_last_for(
                changes,
                i,
            ) implies after[at] == (records::ShellFacts { visible: changes[i].1, ..shells[at] }) by {
            if i < fewer.len() {
                assert(fewer[i] == changes[i]);
                assert(changes[changes.len() - 1].0 != at);
                assert forall|j: int| i < j < fewer.len() implies (#[trigger] fewer[j]).0
                    != fewer[i].0 by {
                    assert(fewer[j] == changes[j]);
                }
            }
        }
        if forall|i: int| 0 <= i < changes.len() ==> (#[trigger] changes[i]).0 != at {
            assert(changes[changes.len() - 1].0 != at);
            assert forall|i: int| 0 <= i < fewer.len() implies (#[trigger] fewer[i]).0 != at by {
                assert(fewer[i] == changes[i]);
            }
        }
    }
}

proof fn lemma_shells_keep(shells: Seq<records::ShellFacts>, changes: Seq<(usize, bool)>, at: int)
    requires
        0 <= at < shells.len(),
    ensures
        panel::shells_after(shells, changes).len() == shells.len(),
        panel::shells_after(shells, changes)[at] == (records::ShellFacts {
            visible: panel::shells_after(shells, changes)[at].visible,
            ..shells[at]
        }),
    decreases changes.len(),
{
    if changes.len() > 0 {
        lemma_shells_keep(shells, changes.drop_last(), at);
    }
}

/// A face is seen or hidden as the last change that speaks of it says, and
/// keeps all else; one that no change speaks of stays as it is.
pub proof fn law_last_change_counts_for_faces<C>(faces: Seq<records::FaceFacts<C>>, changes: Seq<(usize, bool)>, at: int)
    requires
        0 <= at < faces.len(),
    ensures
        panel::faces_after(faces, changes).len() == faces.len(),
        forall|i: int|
            0 <= i < changes.len() && (#[trigger] changes[i]).0 == at && is_last_for(changes, i)
                ==> panel::faces_after(faces, changes)[at] == (records::FaceFacts {
                visible: changes[i].1,
                ..faces[at]
            }),
        (forall|i: int| 0 <= i < changes.len() ==> (#[trigger] changes[i]).0 != at) ==> panel::faces_after(
            faces,
            changes,
        )[at] == faces[at],
    decreases changes.len(),
{
    if changes.len() > 0 {
        let fewer = changes.drop_last();
        let after = panel::faces_after(faces, changes);
        law_last_change_counts_for_faces(faces, fewer, at);
        lemma_faces_keep(faces, fewer, at);
        assert forall|i: int|
            0 <= i < changes.len() && (#[trigger] changes[i]).0 == at && is_last_for(
                changes,
                i,
            ) implies after[at] == (records::FaceFacts { visible: changes[i].1, ..faces[at] }) by {
            if i < fewer.len() {
                assert(fewer[i] == changes[i]);
                assert(changes[changes.len() - 1].0 != at);
                assert forall|j: int| i < j < fewer.len() implies (#[trigger] fewer[j]).0
                    != fewer[i].0 by {
                    assert(fewer[j] == changes[j]);
                }
            }
        }
        if forall|i: int| 0 <= i < changes.len() ==> (#[trigger] changes[i]).0 != at {
            assert(changes[changes.len() - 1].0 != at);
            assert forall|i: int| 0 <= i < fewer.len() implies (#[trigger] fewer[i]).0 != at by {
                assert(fewer[i] == changes[i]);
            }
        }
    }
}

proof fn lemma_faces_keep<C>(faces: Seq<records::FaceFacts<C>>, changes: Seq<(usize, bool)>, at: int)
    requires
        0 <= at < faces.len(),
    ensures
        panel::faces_after(faces, changes).len() == faces.len(),
        panel::faces_after(faces, changes)[at] == (records::FaceFacts {
            visible: panel::faces_after(faces, changes)[at].visible,
            ..faces[at]
        }),
    decreases changes.len(),
{
    if changes.len() > 0 {
        lemma_faces_keep(faces, changes.drop_last(), at);
    }
}

/// An edge is seen or hidden as the last change that speaks of it says, and
/// keeps all else; one that no change speaks of stays as it is.
pub proof fn law_last_change_counts_for_edges(edges: Seq<records::EdgeFacts>, changes: Seq<(usize, bool)>, at: int)
    requires
        0 <= at < edges.len(),
    ensures
        panel::edges_after(edges, changes).len() == edges.len(),
        forall|i: int|
            0 <= i < changes.len() && (#[trigger] changes[i]).0 == at && is_last_for(changes, i)
                ==> panel::edges_after(edges, changes)[at] == (records::EdgeFacts {
                visible: changes[i].1,
                ..edges[at]
            }),
        (forall|i: int| 0 <= i < changes.len() ==> (#[trigger] changes[i]).0 != at) ==> panel::edges_after(
            edges,
            changes,
        )[at] == edges[at],
    decreases changes.len(),
{
    if changes.len() > 0 {
        let fewer = changes.drop_last();
        let after = panel::edges_after(edges, changes);
        law_last_change_counts_for_edges(edges, fewer, at);
        lemma_edges_keep(edges, fewer, at);
        assert forall|i: int|
            0 <= i < changes.len() && (#[trigger] changes[i]).0 == at && is_last_for(
                changes,
                i,
            ) implies after[at] == (records::EdgeFacts { visible: changes[i].1, ..edges[at] }) by {
            if i < fewer.len() {
                assert(fewer[i] == changes[i]);
                assert(changes[changes.len() - 1].0 != at);
                assert forall|j: int| i < j < fewer.len() implies (#[trigger] fewer[j]).0
                    != fewer[i].0 by {
                    assert(fewer[j] == changes[j]);
                }
            }
        }
        if forall|i: int| 0 <= i < changes.len() ==> (#[trigger] changes[i]).0 != at {
            assert(changes[changes.len() - 1].0 != at);
            assert forall|i: int| 0 <= i < fewer.len() implies (#[trigger] fewer[i]).0 != at by {
                assert(fewer[i] == changes[i]);
            }
        }
    }
}

proof fn lemma_edges_keep(edges: Seq<records::EdgeFacts>, changes: Seq<(usize, bool)>, at: int)
    requires
        0 <= at < edges.len(),
    ensures
        panel::edges_after(edges, changes).len() == edges.len(),
        panel::edges_after(edges, changes)[at] == (records::EdgeFacts {
            visible: panel::edges_after(edges, changes)[at].visible,
            ..edges[at]
        }),
    decreases changes.len(),
{
    if changes.len() > 0 {
        lemma_edges_keep(edges, changes.drop_last(), at);
    }
}

/// A loop trims or not as the last change that speaks of it says, and keeps all
/// else; one that no change speaks of stays as it is.
pub proof fn law_last_change_counts_for_loops(loops: Seq<records::LoopFacts>, changes: Seq<(usize, bool)>, at: int)
    requires
        0 <= at < loops.len(),
    ensures
        panel::loops_after(loops, changes).len() == loops.len(),
        forall|i: int|
            0 <= i < changes.len() && (#[trigger] changes[i]).0 == at && is_last_for(changes, i)
                ==> panel::loops_after(loops, changes)[at] == (records::LoopFacts {
                trimming_active: changes[i].1,
                ..loops[at]
            }),
        (forall|i: int| 0 <= i < changes.len() ==> (#[trigger] changes[i]).0 != at) ==> panel::loops_after(
            loops,
            changes,
        )[at] == loops[at],
    decreases changes.len(),
{
    if changes.len() > 0 {
        let fewer = changes.drop_last();
        let after = panel::loops_after(loops, changes);
        law_last_change_counts_for_loops(loops, fewer, at);
        lemma_loops_keep(loops, fewer, at);
        assert forall|i: int|
            0 <= i < changes.len() && (#[trigger] changes[i]).0 == at && is_last_for(
                changes,
                i,
            ) implies after[at] == (records::LoopFacts { trimming_active: changes[i].1, ..loops[at] }) by {
            if i < fewer.len() {
                assert(fewer[i] == changes[i]);
                assert(changes[changes.len() - 1].0 != at);
                assert forall|j: int| i < j < fewer.len() implies (#[trigger] fewer[j]).0
                    != fewer[i].0 by {
                    assert(fewer[j] == changes[j]);
                }
            }
        }
        if forall|i: int| 0 <= i < changes.len() ==> (#[trigger] changes[i]).0 != at {
            assert(changes[changes.len() - 1].0 != at);
            assert forall|i: int| 0 <= i < fewer.len() implies (#[trigger] fewer[i]).0 != at by {
                assert(fewer[i] == changes[i]);
            }
        }
    }
}

proof fn lemma_loops_keep(loops: Seq<records::LoopFacts>, changes: Seq<(usize, bool)>, at: int)
    requires
        0 <= at < loops.len(),
    ensures
        panel::loops_after(loops, changes).len() == loops.len(),
        panel::loops_after(loops, changes)[at] == (records::LoopFacts {
            trimming_active: panel::loops_after(loops, changes)[at].trimming_active,
            ..loops[at]
        }),
    decreases changes.len(),
{
    if changes.len() > 0 {
        lemma_loops_keep(loops, changes.drop_last(), at);
    }
}

/// The face whose mesh is made anew is that of the last loop that there is
/// among the changes.
pub proof fn law_last_loop_is_retessellated(
    loops: Seq<records::LoopFacts>,
    changes: Seq<(usize, bool)>,
    i: int,
)
    requires
        0 <= i < changes.len(),
        changes[i].0 < loops.len(),
        forall|j: int| i < j < changes.len() ==> (#[trigger] changes[j]).0 >= loops.len(),
    ensures
        panel::face_to_retessellate(loops, changes) == Some(
            loops[changes[i].0 as int].face_id,
        ),
    decreases changes.len(),
{
    if i < changes.len() - 1 {
        let fewer = changes.drop_last();
        assert(changes[changes.len() - 1].0 >= loops.len());
        assert forall|j: int| i < j < fewer.len() implies (#[trigger] fewer[j]).0
            >= loops.len() by {
            assert(fewer[j] == changes[j]);
        }
        law_last_loop_is_retessellated(loops, fewer, i);
    }
}

proof fn lemma_numbered<F>(surfaces: Seq<Option<NsiBrepSurfaceData<F>>>, n: int)
    requires
        0 <= n <= surfaces.len(),
    ensures
        picks(
            surface_net::numbered(surfaces.take(n)),
            n,
            |i: int| surfaces[i] is Some,
            |i: int| NsiBrepSurfaceData { face_index: i as usize, ..surfaces[i]->0 },
        ),
    decreases n,
{
    let chosen = |i: int| surfaces[i] is Some;
    let item = |i: int| NsiBrepSurfaceData { face_index: i as usize, ..surfaces[i]->0 };
    if n == 0 {
        lemma_picks_none(chosen, item);
    } else {
        lemma_numbered(surfaces, n - 1);
        assert(surfaces.take(n).drop_last() =~= surfaces.take(n - 1));
        lemma_picks_next(surface_net::numbered(surfaces.take(n - 1)), n - 1, chosen, item);
    }
}

/// The faces with a surface have it under the number of their place.
pub proof fn law_surfaces_have_numbers_of_faces<F>(surfaces: Seq<Option<NsiBrepSurfaceData<F>>>)
    ensures
        picks(
            surface_net::numbered(surfaces),
            surfaces.len() as int,
            |i: int| surfaces[i] is Some,
            |i: int| NsiBrepSurfaceData { face_index: i as usize, ..surfaces[i]->0 },
        ),
{
    lemma_numbered(surfaces, surfaces.len() as int);
    assert(surfaces.take(surfaces.len() as int) =~= surfaces);
}

/// The triangles of all faces are counted.
pub proof fn law_triangles_are_counted<P, N, C>(
    a: Seq<FaceChunk<P, N, C>>,
    b: Seq<FaceChunk<P, N, C>>,
    s: FaceChunk<P, N, C>,
)
    ensures
        shell_mesh::triangle_total(a + b) == shell_mesh::triangle_total(a)
            + shell_mesh::triangle_total(b),
        shell_mesh::triangle_total(seq![s]) == s.geometry.indices@.len() / 3,
    decreases b.len(),
{
    if b.len() == 0 {
        assert(a + b =~= a);
    } else {
        law_triangles_are_counted(a, b.drop_last(), s);
        assert((a + b).drop_last() =~= a + b.drop_last());
    }
    assert(seq![s].drop_last() =~= Seq::empty());
    assert(shell_mesh::triangle_total(seq![s].drop_last()) == 0);
}

} // verus!
