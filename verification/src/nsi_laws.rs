//! What the renderer is told of a shell, call by call.

use vstd::prelude::*;

use crate::nsi_export;
use crate::nsi_scene;
use crate::nsi_scene::{CallModel, RenderAction, RenderCommand, TrackedModel};
use crate::text;

verus! {

proof fn lemma_decimals_differ(a: nat, b: nat)
    requires
        text::decimal(a) == text::decimal(b),
    ensures
        a == b,
{
    text::law_decimal_reads_back(a);
    text::law_decimal_reads_back(b);
}

/// Two numbers with an underscore between them are told by their text.
proof fn lemma_pairs_differ(a: nat, b: nat, c: nat, d: nat)
    requires
        text::decimal(a) + "_"@ + text::decimal(b) == text::decimal(c) + "_"@ + text::decimal(d),
    ensures
        a == c,
        b == d,
{
    reveal_strlit("_");
    let s = text::decimal(a) + "_"@ + text::decimal(b);
    let t = text::decimal(c) + "_"@ + text::decimal(d);
    let m = text::decimal(a).len() as int;
    let n = text::decimal(c).len() as int;
    text::law_decimal_reads_back(a);
    text::law_decimal_reads_back(c);
    assert(s[m] == '_' && t[n] == '_');
    if m < n {
        assert(t[m] == text::decimal(c)[m]);
        assert(text::is_digit(text::decimal(c)[m]));
    }
    if n < m {
        assert(s[n] == text::decimal(a)[n]);
        assert(text::is_digit(text::decimal(a)[n]));
    }
    assert(s.take(m) =~= text::decimal(a));
    assert(t.take(n) =~= text::decimal(c));
    assert(s.skip(m + 1) =~= text::decimal(b));
    assert(t.skip(n + 1) =~= text::decimal(d));
    lemma_decimals_differ(a, c);
    lemma_decimals_differ(b, d);
}

/// Each shell has a transformation node of its own, and each face of each shell
/// a surface node and an attribute node.
pub proof fn law_handles_tell_nodes_apart(a: usize, b: usize, c: usize, d: usize)
    ensures
        nsi_export::transform_handle(a) == nsi_export::transform_handle(c) ==> a == c,
        nsi_export::surface_handle(a, b) == nsi_export::surface_handle(c, d) ==> a == c && b == d,
        nsi_export::attrib_handle(a, b) == nsi_export::attrib_handle(c, d) ==> a == c && b == d,
        nsi_export::surface_handle(a, b) != nsi_export::attrib_handle(c, d),
        nsi_export::surface_handle(a, b) != nsi_export::transform_handle(c),
        nsi_export::attrib_handle(a, b) != nsi_export::transform_handle(c),
{
    let x = "mstpv_brep_xform_shell_"@;
    let s = "mstpv_brep_surface_shell_"@;
    let t = "mstpv_brep_attrib_shell_"@;
    reveal_strlit("mstpv_brep_xform_shell_");
    reveal_strlit("mstpv_brep_surface_shell_");
    reveal_strlit("mstpv_brep_attrib_shell_");
    let da = text::decimal(a as nat);
    let db = text::decimal(b as nat);
    let dc = text::decimal(c as nat);
    let dd = text::decimal(d as nat);
    if nsi_export::transform_handle(a) == nsi_export::transform_handle(c) {
        assert((x + da).skip(x.len() as int) =~= da);
        assert((x + dc).skip(x.len() as int) =~= dc);
        lemma_decimals_differ(a as nat, c as nat);
    }
    if nsi_export::surface_handle(a, b) == nsi_export::surface_handle(c, d) {
        assert((s + da + "_"@ + db).skip(s.len() as int) =~= da + "_"@ + db);
        assert((s + dc + "_"@ + dd).skip(s.len() as int) =~= dc + "_"@ + dd);
        lemma_pairs_differ(a as nat, b as nat, c as nat, d as nat);
    }
    if nsi_export::attrib_handle(a, b) == nsi_export::attrib_handle(c, d) {
        assert((t + da + "_"@ + db).skip(t.len() as int) =~= da + "_"@ + db);
        assert((t + dc + "_"@ + dd).skip(t.len() as int) =~= dc + "_"@ + dd);
        lemma_pairs_differ(a as nat, b as nat, c as nat, d as nat);
    }
    assert(nsi_export::surface_handle(a, b)[11] == 's');
    assert(nsi_export::attrib_handle(c, d)[11] == 'a');
    assert(nsi_export::attrib_handle(a, b)[11] == 'a');
    assert(nsi_export::transform_handle(c)[11] == 'x');
}

proof fn lemma_hiding(shell: usize, faces: Seq<usize>, stay: Seq<usize>, call: CallModel)
    ensures
        nsi_scene::hiding_calls(shell, faces, stay).contains(call) <==> exists|i: int|
            0 <= i < faces.len() && !stay.contains(#[trigger] faces[i]) && call
                == CallModel::SetVisibility(nsi_export::attrib_handle(shell, faces[i]), false),
    decreases faces.len(),
{
    if faces.len() > 0 {
        let init = faces.drop_last();
        lemma_hiding(shell, init, stay, call);
        let before = nsi_scene::hiding_calls(shell, init, stay);
        let now = nsi_scene::hiding_calls(shell, faces, stay);
        let last = faces.len() - 1;
        if before.contains(call) {
            assert(now[before.index_of(call)] == call);
            let i = choose|i: int|
                0 <= i < init.len() && !stay.contains(#[trigger] init[i]) && call
                    == CallModel::SetVisibility(nsi_export::attrib_handle(shell, init[i]), false);
            assert(faces[i] == init[i]);
        }
        if now.contains(call) && !before.contains(call) {
            let k = now.index_of(call);
            assert(k >= before.len() || before[k] == call);
            assert(!stay.contains(faces[last]));
        }
        if exists|i: int|
            0 <= i < faces.len() && !stay.contains(#[trigger] faces[i]) && call
                == CallModel::SetVisibility(nsi_export::attrib_handle(shell, faces[i]), false) {
            let i = choose|i: int|
                0 <= i < faces.len() && !stay.contains(#[trigger] faces[i]) && call
                    == CallModel::SetVisibility(nsi_export::attrib_handle(shell, faces[i]), false);
            if i < last {
                assert(init[i] == faces[i]);
            } else {
                assert(now[now.len() - 1] == call);
            }
        }
    }
}

proof fn lemma_making(shell: usize, known: Seq<usize>, faces: Seq<usize>, f: int, k: int)
    requires
        0 <= f < faces.len(),
        !known.contains(faces[f]),
        0 <= k < 5,
    ensures
        nsi_scene::making_calls(shell, known, faces).contains(
            nsi_scene::face_calls(shell, faces[f])[k],
        ),
    decreases faces.len(),
{
    let init = faces.drop_last();
    let before = nsi_scene::making_calls(shell, known, init);
    let now = nsi_scene::making_calls(shell, known, faces);
    let call = nsi_scene::face_calls(shell, faces[f])[k];
    let so_far = nsi_scene::with_faces(known, init);
    if f < init.len() {
        assert(init[f] == faces[f]);
        lemma_making(shell, known, init, f, k);
        assert(now[before.index_of(call)] == call);
    } else if so_far.contains(faces[f]) {
        let g = lemma_came_from(known, init, faces[f]);
        lemma_making(shell, known, init, g, k);
        assert(now[before.index_of(call)] == call);
    } else {
        assert(now[before.len() + k] == call);
    }
}

proof fn lemma_came_from(known: Seq<usize>, faces: Seq<usize>, face: usize) -> (g: int)
    requires
        nsi_scene::with_faces(known, faces).contains(face),
        !known.contains(face),
    ensures
        0 <= g < faces.len(),
        faces[g] == face,
    decreases faces.len(),
{
    if faces.last() == face {
        faces.len() - 1
    } else {
        let before = nsi_scene::with_faces(known, faces.drop_last());
        let now = nsi_scene::with_faces(known, faces);
        let k = now.index_of(face);
        assert(before[k] == face);
        lemma_came_from(known, faces.drop_last(), face)
    }
}

proof fn lemma_made_is_no_visibility(shell: usize, known: Seq<usize>, faces: Seq<usize>, i: int)
    requires
        0 <= i < nsi_scene::making_calls(shell, known, faces).len(),
    ensures
        nsi_scene::making_calls(shell, known, faces)[i] is Create || nsi_scene::making_calls(
            shell,
            known,
            faces,
        )[i] is Connect,
    decreases faces.len(),
{
    let before = nsi_scene::making_calls(shell, known, faces.drop_last());
    if i < before.len() {
        lemma_made_is_no_visibility(shell, known, faces.drop_last(), i);
    } else {
        let own = nsi_scene::face_calls(shell, faces.last());
        assert(nsi_scene::making_calls(shell, known, faces)[i] == own[i - before.len()]);
    }
}

/// The parts of what the renderer is told of a shell with surfaces.
spec fn parts(scene: Seq<TrackedModel>, shell: usize, faces: Seq<usize>) -> (
    Seq<CallModel>,
    Seq<CallModel>,
    Seq<CallModel>,
    Seq<CallModel>,
) {
    let known = nsi_scene::faces_of(scene, shell);
    (
        (if nsi_scene::place(scene, shell) < scene.len() {
            Seq::empty()
        } else {
            nsi_scene::shell_calls(shell)
        }) + seq![CallModel::SetMatrix(nsi_export::transform_handle(shell))],
        nsi_scene::hiding_calls(shell, known, faces),
        nsi_scene::making_calls(shell, known, faces),
        nsi_scene::surface_calls(shell, faces),
    )
}

proof fn lemma_update_has(
    scene: Seq<TrackedModel>,
    shell: usize,
    faces: Seq<usize>,
    call: CallModel,
)
    requires
        faces.len() > 0,
    ensures
        ({
            let (a, b, c, d) = parts(scene, shell, faces);
            nsi_scene::update_calls(scene, shell, faces).contains(call) <==> a.contains(call)
                || b.contains(call) || c.contains(call) || d.contains(call) || call
                == CallModel::Synchronize
        }),
{
    let (a, b, c, d) = parts(scene, shell, faces);
    let all = nsi_scene::update_calls(scene, shell, faces);
    let end = seq![CallModel::Synchronize];
    assert(all =~= a + b + c + d + end);
    let n1 = a.len() as int;
    let n2 = n1 + b.len();
    let n3 = n2 + c.len();
    let n4 = n3 + d.len();
    if a.contains(call) {
        assert(all[a.index_of(call)] == call);
    }
    if b.contains(call) {
        assert(all[n1 + b.index_of(call)] == call);
    }
    if c.contains(call) {
        assert(all[n2 + c.index_of(call)] == call);
    }
    if d.contains(call) {
        assert(all[n3 + d.index_of(call)] == call);
    }
    if call == CallModel::Synchronize {
        assert(all[n4] == call);
    }
    if all.contains(call) {
        let k = all.index_of(call);
        if k < n1 {
            assert(a[k] == call);
        } else if k < n2 {
            assert(b[k - n1] == call);
        } else if k < n3 {
            assert(c[k - n2] == call);
        } else if k < n4 {
            assert(d[k - n3] == call);
        }
    }
}

/// A shell that comes with surfaces has its matrix set, the data of each
/// surface go to the node of its own face, and the renderer takes all of it over
/// at the end.
pub proof fn law_surfaces_go_to_their_faces(
    scene: Seq<TrackedModel>,
    shell: usize,
    faces: Seq<usize>,
    i: int,
)
    requires
        0 <= i < faces.len(),
    ensures
        ({
            let calls = nsi_scene::update_calls(scene, shell, faces);
            &&& calls.contains(CallModel::SetMatrix(nsi_export::transform_handle(shell)))
            &&& calls.contains(
                CallModel::SetSurface(nsi_export::surface_handle(shell, faces[i]), i),
            )
            &&& calls.last() == CallModel::Synchronize
        }),
{
    let (a, b, c, d) = parts(scene, shell, faces);
    let matrix = CallModel::SetMatrix(nsi_export::transform_handle(shell));
    assert(a[a.len() - 1] == matrix);
    lemma_update_has(scene, shell, faces, matrix);
    let data = CallModel::SetSurface(nsi_export::surface_handle(shell, faces[i]), i);
    assert(d[i] == data);
    lemma_update_has(scene, shell, faces, data);
}

/// A face that is new gets its nodes: a surface that belongs to the
/// transformation of its shell, and attributes with the shader that belong to
/// the surface.
pub proof fn law_new_faces_get_nodes(
    scene: Seq<TrackedModel>,
    shell: usize,
    faces: Seq<usize>,
    i: int,
)
    requires
        0 <= i < faces.len(),
        !nsi_scene::faces_of(scene, shell).contains(faces[i]),
    ensures
        ({
            let calls = nsi_scene::update_calls(scene, shell, faces);
            let surface = nsi_export::surface_handle(shell, faces[i]);
            let attrib = nsi_export::attrib_handle(shell, faces[i]);
            let xform = nsi_export::transform_handle(shell);
            &&& calls.contains(CallModel::Create(surface, "nurbs"@))
            &&& calls.contains(CallModel::Connect(surface, xform, "objects"@))
            &&& calls.contains(CallModel::Create(attrib, "attributes"@))
            &&& calls.contains(CallModel::Connect("mstpv_shader"@, attrib, "surfaceshader"@))
            &&& calls.contains(CallModel::Connect(attrib, surface, "geometryattributes"@))
        }),
{
    let own = nsi_scene::face_calls(shell, faces[i]);
    let known = nsi_scene::faces_of(scene, shell);
    assert forall|k: int| 0 <= k < 5 implies nsi_scene::update_calls(scene, shell, faces).contains(
        #[trigger] own[k],
    ) by {
        lemma_making(shell, known, faces, i, k);
        lemma_update_has(scene, shell, faces, own[k]);
    }
    assert(own[0] == CallModel::Create(nsi_export::surface_handle(shell, faces[i]), "nurbs"@));
    assert(own[1] == CallModel::Connect(
        nsi_export::surface_handle(shell, faces[i]),
        nsi_export::transform_handle(shell),
        "objects"@,
    ));
    assert(own[2] == CallModel::Create(
        nsi_export::attrib_handle(shell, faces[i]),
        "attributes"@,
    ));
    assert(own[3] == CallModel::Connect(
        "mstpv_shader"@,
        nsi_export::attrib_handle(shell, faces[i]),
        "surfaceshader"@,
    ));
    assert(own[4] == CallModel::Connect(
        nsi_export::attrib_handle(shell, faces[i]),
        nsi_export::surface_handle(shell, faces[i]),
        "geometryattributes"@,
    ));
}

proof fn lemma_hidden(
    scene: Seq<TrackedModel>,
    shell: usize,
    faces: Seq<usize>,
    other: usize,
    face: usize,
    v: bool,
)
    requires
        faces.len() > 0,
    ensures
        nsi_scene::update_calls(scene, shell, faces).contains(
            CallModel::SetVisibility(nsi_export::attrib_handle(other, face), v),
        ) <==> !v && other == shell && nsi_scene::faces_of(scene, shell).contains(face)
            && !faces.contains(face),
{
    let known = nsi_scene::faces_of(scene, shell);
    let (a, b, c, d) = parts(scene, shell, faces);
    let call = CallModel::SetVisibility(nsi_export::attrib_handle(other, face), v);
    lemma_update_has(scene, shell, faces, call);
    lemma_hiding(shell, known, faces, call);
    if c.contains(call) {
        lemma_made_is_no_visibility(shell, known, faces, c.index_of(call));
    }
    if d.contains(call) {
        assert(d[d.index_of(call)] is SetSurface);
    }
    if a.contains(call) {
        assert(!(a[a.index_of(call)] is SetVisibility));
    }
    if b.contains(call) {
        let i = choose|i: int|
            0 <= i < known.len() && !faces.contains(#[trigger] known[i]) && call
                == CallModel::SetVisibility(nsi_export::attrib_handle(shell, known[i]), false);
        law_handles_tell_nodes_apart(other, face, shell, known[i]);
    }
    if !v && other == shell && known.contains(face) && !faces.contains(face) {
        let i = known.index_of(face);
        assert(known[i] == face);
    }
}

/// Of the faces that the renderer has nodes for, exactly those that do not come
/// again are hidden, and no face of another shell is.
pub proof fn law_only_missing_faces_are_hidden(
    scene: Seq<TrackedModel>,
    shell: usize,
    faces: Seq<usize>,
    other: usize,
    face: usize,
)
    requires
        faces.len() > 0,
    ensures
        nsi_scene::update_calls(scene, shell, faces).contains(
            CallModel::SetVisibility(nsi_export::attrib_handle(other, face), false),
        ) <==> other == shell && nsi_scene::faces_of(scene, shell).contains(face)
            && !faces.contains(face),
        !nsi_scene::update_calls(scene, shell, faces).contains(
            CallModel::SetVisibility(nsi_export::attrib_handle(other, face), true),
        ),
{
    lemma_hidden(scene, shell, faces, other, face, true);
    lemma_hidden(scene, shell, faces, other, face, false);
}

proof fn lemma_with_faces(known: Seq<usize>, faces: Seq<usize>, face: usize)
    ensures
        nsi_scene::with_faces(known, faces).contains(face) <==> known.contains(face)
            || faces.contains(face),
    decreases faces.len(),
{
    if faces.len() > 0 {
        let init = faces.drop_last();
        lemma_with_faces(known, init, face);
        lemma_with_faces(known, init, faces.last());
        let before = nsi_scene::with_faces(known, init);
        let now = nsi_scene::with_faces(known, faces);
        if before.contains(face) {
            assert(now[before.index_of(face)] == face);
        }
        if faces.last() == face && !before.contains(face) {
            assert(now[now.len() - 1] == face);
        }
        if init.contains(face) {
            assert(faces[init.index_of(face)] == face);
        }
        if faces.contains(face) && face != faces.last() {
            assert(init[faces.index_of(face)] == face);
        }
        if faces.last() == face {
            assert(faces[faces.len() - 1] == face);
        }
        if now.contains(face) && !before.contains(face) {
            let k = now.index_of(face);
            assert(k >= before.len() || before[k] == face);
        }
    }
}

/// After a shell has come, the renderer has nodes for the faces that it had
/// before and for those that came, and for no others.
pub proof fn law_nodes_are_remembered(
    scene: Seq<TrackedModel>,
    shell: usize,
    faces: Seq<usize>,
    face: usize,
)
    ensures
        nsi_scene::faces_of(nsi_scene::updated(scene, shell, faces), shell).contains(face)
            <==> nsi_scene::faces_of(scene, shell).contains(face) || faces.contains(face),
{
    let known = nsi_scene::faces_of(scene, shell);
    lemma_with_faces(known, faces, face);
    if faces.len() > 0 {
        let at = nsi_scene::place(scene, shell);
        let after = nsi_scene::updated(scene, shell, faces);
        nsi_scene::lemma_place_fits(scene, shell);
        nsi_scene::lemma_place(after, shell, at);
    }
}

/// Whatever commands come, the renderer takes the scene over as soon as it is
/// started, and what stops it is waited for.
pub proof fn law_starts_and_stops_are_whole(running: bool, commands: Seq<RenderCommand>, i: int)
    requires
        0 <= i < nsi_scene::all_actions(running, commands).len(),
    ensures
        ({
            let all = nsi_scene::all_actions(running, commands);
            &&& all[i] == RenderAction::Start ==> i + 1 < all.len() && all[i + 1]
                == RenderAction::Synchronize
            &&& all[i] == RenderAction::Stop ==> i + 1 < all.len() && all[i + 1]
                == RenderAction::Wait
        }),
    decreases commands.len(),
{
    let fewer = commands.drop_last();
    let before = nsi_scene::all_actions(running, fewer);
    if i < before.len() {
        law_starts_and_stops_are_whole(running, fewer, i);
    }
}

/// A renderer runs after commands if the last one that starts or stops it starts
/// it. Changes reach it if and only if it runs.
pub proof fn law_last_command_decides(running: bool, commands: Seq<RenderCommand>, i: int)
    requires
        0 <= i < commands.len(),
        commands[i] != RenderCommand::Synchronize,
        forall|k: int|
            i < k < commands.len() ==> #[trigger] commands[k] == RenderCommand::Synchronize,
    ensures
        nsi_scene::runs_after_all(running, commands) <==> commands[i] == RenderCommand::Start,
        nsi_scene::actions_for(true, RenderCommand::Synchronize) == seq![
            RenderAction::Synchronize,
        ],
        nsi_scene::actions_for(false, RenderCommand::Synchronize).len() == 0,
        nsi_scene::actions_for(true, RenderCommand::Start).len() == 0,
        nsi_scene::actions_for(false, RenderCommand::Stop).len() == 0,
    decreases commands.len(),
{
    if i < commands.len() - 1 {
        let fewer = commands.drop_last();
        assert(commands[commands.len() - 1] == RenderCommand::Synchronize);
        assert(fewer[i] == commands[i]);
        assert forall|k: int| i < k < fewer.len() implies #[trigger] fewer[k]
            == RenderCommand::Synchronize by {
            assert(fewer[k] == commands[k]);
        }
        law_last_command_decides(running, fewer, i);
    }
}

/// Hiding a shell hides each of its faces that the renderer has nodes for, and
/// shows or hides nothing else.
pub proof fn law_hidden_shell_has_no_face_left(
    scene: Seq<TrackedModel>,
    shell: usize,
    other: usize,
    face: usize,
    visible: bool,
)
    ensures
        nsi_scene::hide_calls(scene, shell).contains(
            CallModel::SetVisibility(nsi_export::attrib_handle(other, face), visible),
        ) <==> !visible && other == shell && nsi_scene::faces_of(scene, shell).contains(face),
{
    let faces = nsi_scene::faces_of(scene, shell);
    let call = CallModel::SetVisibility(nsi_export::attrib_handle(other, face), visible);
    let hiding = nsi_scene::hiding_calls(shell, faces, Seq::empty());
    lemma_hiding(shell, faces, Seq::empty(), call);
    if faces.len() > 0 {
        let all = hiding.push(CallModel::Synchronize);
        if hiding.contains(call) {
            assert(all[hiding.index_of(call)] == call);
            let i = choose|i: int|
                0 <= i < faces.len() && !Seq::<usize>::empty().contains(#[trigger] faces[i])
                    && call == CallModel::SetVisibility(
                    nsi_export::attrib_handle(shell, faces[i]),
                    false,
                );
            law_handles_tell_nodes_apart(other, face, shell, faces[i]);
        }
        if all.contains(call) {
            let k = all.index_of(call);
            assert(k < hiding.len());
            assert(hiding[k] == call);
        }
        if !visible && other == shell && faces.contains(face) {
            let i = faces.index_of(face);
            assert(faces[i] == face);
        }
    }
}

/// Of the shells that the renderer has nodes for, those that are not kept are
/// hidden, face by face, and the others stay as they are.
pub proof fn law_only_shells_not_kept_are_hidden(
    scene: Seq<TrackedModel>,
    shells: Seq<TrackedModel>,
    keep: Seq<usize>,
    other: usize,
    face: usize,
    visible: bool,
)
    ensures
        nsi_scene::unretained_calls(scene, shells, keep).contains(
            CallModel::SetVisibility(nsi_export::attrib_handle(other, face), visible),
        ) <==> !visible && !keep.contains(other) && nsi_scene::faces_of(scene, other).contains(
            face,
        ) && exists|i: int| 0 <= i < shells.len() && (#[trigger] shells[i]).shell == other,
    decreases shells.len(),
{
    if shells.len() > 0 {
        let fewer = shells.drop_last();
        let last = shells.last().shell;
        let call = CallModel::SetVisibility(nsi_export::attrib_handle(other, face), visible);
        let before = nsi_scene::unretained_calls(scene, fewer, keep);
        let own = nsi_scene::hide_calls(scene, last);
        let all = nsi_scene::unretained_calls(scene, shells, keep);
        law_only_shells_not_kept_are_hidden(scene, fewer, keep, other, face, visible);
        law_hidden_shell_has_no_face_left(scene, last, other, face, visible);
        if before.contains(call) {
            assert(all[before.index_of(call)] == call);
            let i = choose|i: int|
                0 <= i < fewer.len() && (#[trigger] fewer[i]).shell == other;
            assert(shells[i] == fewer[i]);
        }
        if !keep.contains(last) && own.contains(call) {
            assert(all[before.len() + own.index_of(call)] == call);
            assert(shells[shells.len() - 1].shell == other);
        }
        if all.contains(call) && !before.contains(call) {
            let k = all.index_of(call);
            if k < before.len() {
                assert(before[k] == call);
            } else {
                assert(own[k - before.len()] == call);
            }
        }
        if exists|i: int| 0 <= i < shells.len() && (#[trigger] shells[i]).shell == other {
            let i = choose|i: int|
                0 <= i < shells.len() && (#[trigger] shells[i]).shell == other;
            if i < fewer.len() {
                assert(fewer[i] == shells[i]);
            } else {
                assert(last == other);
            }
        }
    }
}

/// A shell that comes without surfaces is hidden, and no node is made for it.
pub proof fn law_shell_without_surfaces_is_hidden(
    scene: Seq<TrackedModel>,
    shell: usize,
    face: usize,
)
    ensures
        nsi_scene::faces_of(scene, shell).contains(face) ==> nsi_scene::update_calls(
            scene,
            shell,
            Seq::empty(),
        ).contains(CallModel::SetVisibility(nsi_export::attrib_handle(shell, face), false)),
        nsi_scene::updated(scene, shell, Seq::empty()) == scene,
        forall|i: int|
            0 <= i < nsi_scene::update_calls(scene, shell, Seq::empty()).len() ==> !((
            #[trigger] nsi_scene::update_calls(scene, shell, Seq::empty())[i]) is Create),
{
    law_hidden_shell_has_no_face_left(scene, shell, shell, face, false);
    let faces = nsi_scene::faces_of(scene, shell);
    let calls = nsi_scene::update_calls(scene, shell, Seq::empty());
    let hiding = nsi_scene::hiding_calls(shell, faces, Seq::empty());
    assert forall|i: int| 0 <= i < calls.len() implies !((#[trigger] calls[i]) is Create) by {
        if i < hiding.len() {
            lemma_hiding(shell, faces, Seq::empty(), hiding[i]);
            assert(hiding.contains(hiding[i]));
        }
    }
}

} // verus!
