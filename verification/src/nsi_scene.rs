//! What the renderer is told of shells: which nodes it is to have, and what is
//! to be seen of them.
//!
//! A shell has a transformation, and each of its faces a surface and
//! attributes. Nodes stay once they are made; what is no longer there is
//! hidden.

use vstd::prelude::*;

use crate::nsi_export;
use crate::text::push_decimal;
use crate::text;

verus! {

/// A call of the renderer.
pub enum NsiCall {
    Create { handle: String, kind: &'static str },
    Connect { from: String, to: String, slot: &'static str },
    /// The matrix of the model goes to the transformation.
    SetMatrix { handle: String },
    SetVisibility { handle: String, visible: bool },
    /// The data of the surface at this place go to the node.
    SetSurface { handle: String, surface: usize },
    /// The renderer takes the changes over.
    Synchronize,
}

pub ghost enum CallModel {
    Create(Seq<char>, Seq<char>),
    Connect(Seq<char>, Seq<char>, Seq<char>),
    SetMatrix(Seq<char>),
    SetVisibility(Seq<char>, bool),
    SetSurface(Seq<char>, int),
    Synchronize,
}

impl View for NsiCall {
    type V = CallModel;

    open spec fn view(&self) -> CallModel {
        match self {
            NsiCall::Create { handle, kind } => CallModel::Create(handle@, kind@),
            NsiCall::Connect { from, to, slot } => CallModel::Connect(from@, to@, slot@),
            NsiCall::SetMatrix { handle } => CallModel::SetMatrix(handle@),
            NsiCall::SetVisibility { handle, visible } => CallModel::SetVisibility(
                handle@,
                *visible,
            ),
            NsiCall::SetSurface { handle, surface } => CallModel::SetSurface(
                handle@,
                *surface as int,
            ),
            NsiCall::Synchronize => CallModel::Synchronize,
        }
    }
}

pub open spec fn call_views(calls: Seq<NsiCall>) -> Seq<CallModel> {
    calls.map_values(|c: NsiCall| c@)
}

/// The faces of a shell that the renderer has nodes for.
pub struct TrackedShell {
    pub shell: usize,
    pub faces: Vec<usize>,
}

/// What the renderer has been told: the shells and faces that it has nodes
/// for, and whether it renders.
pub struct NsiRenderState {
    pub shells: Vec<TrackedShell>,
    pub is_rendering: bool,
}

pub ghost struct TrackedModel {
    pub shell: usize,
    pub faces: Seq<usize>,
}

impl View for NsiRenderState {
    type V = Seq<TrackedModel>;

    open spec fn view(&self) -> Seq<TrackedModel> {
        self.shells@.map_values(|t: TrackedShell| TrackedModel { shell: t.shell, faces: t.faces@ })
    }
}

/// The place of a shell, or the number of shells.
pub open spec fn place(scene: Seq<TrackedModel>, shell: usize) -> int
    decreases scene.len(),
{
    if scene.len() == 0 || scene[0].shell == shell {
        0
    } else {
        1 + place(scene.drop_first(), shell)
    }
}

/// The faces of a shell that there are nodes for.
pub open spec fn faces_of(scene: Seq<TrackedModel>, shell: usize) -> Seq<usize> {
    if place(scene, shell) < scene.len() {
        scene[place(scene, shell)].faces
    } else {
        Seq::empty()
    }
}

pub proof fn lemma_place(scene: Seq<TrackedModel>, shell: usize, at: int)
    requires
        0 <= at <= scene.len(),
        forall|i: int| 0 <= i < at ==> (#[trigger] scene[i]).shell != shell,
        at < scene.len() ==> scene[at].shell == shell,
    ensures
        place(scene, shell) == at,
    decreases scene.len(),
{
    if at > 0 {
        let rest = scene.drop_first();
        assert forall|i: int| 0 <= i < at - 1 implies (#[trigger] rest[i]).shell != shell by {
            assert(rest[i] == scene[i + 1]);
        }
        lemma_place(rest, shell, at - 1);
    }
}

/// The calls that make the node of a shell.
pub open spec fn shell_calls(shell: usize) -> Seq<CallModel> {
    let xform = nsi_export::transform_handle(shell);
    seq![
        CallModel::Create(xform, "transform"@),
        CallModel::Connect(xform, ".root"@, "objects"@),
    ]
}

/// The calls that make the nodes of a face.
pub open spec fn face_calls(shell: usize, face: usize) -> Seq<CallModel> {
    let xform = nsi_export::transform_handle(shell);
    let surface = nsi_export::surface_handle(shell, face);
    let attrib = nsi_export::attrib_handle(shell, face);
    seq![
        CallModel::Create(surface, "nurbs"@),
        CallModel::Connect(surface, xform, "objects"@),
        CallModel::Create(attrib, "attributes"@),
        CallModel::Connect("mstpv_shader"@, attrib, "surfaceshader"@),
        CallModel::Connect(attrib, surface, "geometryattributes"@),
    ]
}

/// The calls that hide the faces that are not among those that stay.
pub open spec fn hiding_calls(shell: usize, faces: Seq<usize>, stay: Seq<usize>) -> Seq<CallModel>
    decreases faces.len(),
{
    if faces.len() == 0 {
        Seq::empty()
    } else {
        let rest = hiding_calls(shell, faces.drop_last(), stay);
        if stay.contains(faces.last()) {
            rest
        } else {
            rest.push(
                CallModel::SetVisibility(nsi_export::attrib_handle(shell, faces.last()), false),
            )
        }
    }
}

/// The faces that there are nodes for once the given ones have some.
pub open spec fn with_faces(known: Seq<usize>, faces: Seq<usize>) -> Seq<usize>
    decreases faces.len(),
{
    if faces.len() == 0 {
        known
    } else {
        let before = with_faces(known, faces.drop_last());
        if before.contains(faces.last()) {
            before
        } else {
            before.push(faces.last())
        }
    }
}

/// The calls that make nodes for those of the given faces that have none.
pub open spec fn making_calls(shell: usize, known: Seq<usize>, faces: Seq<usize>) -> Seq<CallModel>
    decreases faces.len(),
{
    if faces.len() == 0 {
        Seq::empty()
    } else {
        let rest = making_calls(shell, known, faces.drop_last());
        if with_faces(known, faces.drop_last()).contains(faces.last()) {
            rest
        } else {
            rest + face_calls(shell, faces.last())
        }
    }
}

/// The calls that hand over the data of the surfaces, in their order.
pub open spec fn surface_calls(shell: usize, faces: Seq<usize>) -> Seq<CallModel> {
    Seq::new(
        faces.len(),
        |i: int| CallModel::SetSurface(nsi_export::surface_handle(shell, faces[i]), i),
    )
}

/// What the renderer is told when a shell comes with surfaces for the given
/// faces. Without any, its faces are hidden.
pub open spec fn update_calls(scene: Seq<TrackedModel>, shell: usize, faces: Seq<usize>) -> Seq<
    CallModel,
> {
    let known = faces_of(scene, shell);
    if faces.len() == 0 {
        hide_calls(scene, shell)
    } else {
        (if place(scene, shell) < scene.len() {
            Seq::empty()
        } else {
            shell_calls(shell)
        }) + seq![CallModel::SetMatrix(nsi_export::transform_handle(shell))] + hiding_calls(
            shell,
            known,
            faces,
        ) + making_calls(shell, known, faces) + surface_calls(shell, faces) + seq![
            CallModel::Synchronize,
        ]
    }
}

/// What the renderer is told to hide a shell: each face that it has nodes for.
pub open spec fn hide_calls(scene: Seq<TrackedModel>, shell: usize) -> Seq<CallModel> {
    let faces = faces_of(scene, shell);
    if faces.len() == 0 {
        Seq::empty()
    } else {
        hiding_calls(shell, faces, Seq::empty()).push(CallModel::Synchronize)
    }
}

/// The scene with a shell that has come with surfaces for the given faces.
pub open spec fn updated(scene: Seq<TrackedModel>, shell: usize, faces: Seq<usize>) -> Seq<
    TrackedModel,
> {
    let model = TrackedModel { shell, faces: with_faces(faces_of(scene, shell), faces) };
    if faces.len() == 0 {
        scene
    } else if place(scene, shell) < scene.len() {
        scene.update(place(scene, shell), model)
    } else {
        scene.push(model)
    }
}

fn handle_text(prefix: &str, shell: usize) -> (r: String)
    ensures
        r@ == prefix@ + text::decimal(shell as nat),
{
    let mut out = String::new();
    out.append(prefix);
    push_decimal(&mut out, shell as u64);
    assert(out@ =~= prefix@ + text::decimal(shell as nat));
    out
}

fn face_handle_text(prefix: &str, shell: usize, face: usize) -> (r: String)
    ensures
        r@ == prefix@ + text::decimal(shell as nat) + "_"@ + text::decimal(face as nat),
{
    let mut out = handle_text(prefix, shell);
    out.append("_");
    push_decimal(&mut out, face as u64);
    out
}

fn transform_name(shell: usize) -> (r: String)
    ensures
        r@ == nsi_export::transform_handle(shell),
{
    handle_text("mstpv_brep_xform_shell_", shell)
}

fn surface_name(shell: usize, face: usize) -> (r: String)
    ensures
        r@ == nsi_export::surface_handle(shell, face),
{
    face_handle_text("mstpv_brep_surface_shell_", shell, face)
}

fn attrib_name(shell: usize, face: usize) -> (r: String)
    ensures
        r@ == nsi_export::attrib_handle(shell, face),
{
    face_handle_text("mstpv_brep_attrib_shell_", shell, face)
}

fn literal(s: &str) -> (r: String)
    ensures
        r@ == s@,
{
    let mut out = String::new();
    out.append(s);
    assert(out@ =~= s@);
    out
}

fn list_has(list: &[usize], item: usize) -> (r: bool)
    ensures
        r == list@.contains(item),
{
    let mut i: usize = 0;
    while i < list.len()
        invariant
            i <= list.len(),
            forall|k: int| 0 <= k < i ==> #[trigger] list@[k] != item,
        decreases list.len() - i,
    {
        if list[i] == item {
            return true;
        }
        i += 1;
    }
    false
}

fn push_call(calls: &mut Vec<NsiCall>, call: NsiCall)
    ensures
        call_views(final(calls)@) == call_views(old(calls)@).push(call@),
{
    calls.push(call);
    assert(call_views(calls@) =~= call_views(old(calls)@).push(call@));
}

fn push_shell_calls(calls: &mut Vec<NsiCall>, shell: usize)
    ensures
        call_views(final(calls)@) == call_views(old(calls)@) + shell_calls(shell),
{
    push_call(calls, NsiCall::Create { handle: transform_name(shell), kind: "transform" });
    push_call(
        calls,
        NsiCall::Connect { from: transform_name(shell), to: literal(".root"), slot: "objects" },
    );
    assert(call_views(calls@) =~= call_views(old(calls)@) + shell_calls(shell));
}

fn push_face_calls(calls: &mut Vec<NsiCall>, shell: usize, face: usize)
    ensures
        call_views(final(calls)@) == call_views(old(calls)@) + face_calls(shell, face),
{
    push_call(calls, NsiCall::Create { handle: surface_name(shell, face), kind: "nurbs" });
    push_call(
        calls,
        NsiCall::Connect {
            from: surface_name(shell, face),
            to: transform_name(shell),
            slot: "objects",
        },
    );
    push_call(calls, NsiCall::Create { handle: attrib_name(shell, face), kind: "attributes" });
    push_call(
        calls,
        NsiCall::Connect {
            from: literal("mstpv_shader"),
            to: attrib_name(shell, face),
            slot: "surfaceshader",
        },
    );
    push_call(
        calls,
        NsiCall::Connect {
            from: attrib_name(shell, face),
            to: surface_name(shell, face),
            slot: "geometryattributes",
        },
    );
    assert(call_views(calls@) =~= call_views(old(calls)@) + face_calls(shell, face));
}

fn push_hiding_calls(calls: &mut Vec<NsiCall>, shell: usize, faces: &[usize], stay: &[usize])
    ensures
        call_views(final(calls)@) == call_views(old(calls)@) + hiding_calls(shell, faces@, stay@),
{
    let ghost start = call_views(calls@);
    let mut i: usize = 0;
    assert(start + hiding_calls(shell, faces@.take(0), stay@) =~= start);
    while i < faces.len()
        invariant
            i <= faces.len(),
            call_views(calls@) == start + hiding_calls(shell, faces@.take(i as int), stay@),
        decreases faces.len() - i,
    {
        assert(faces@.take(i + 1).drop_last() =~= faces@.take(i as int));
        if !list_has(stay, faces[i]) {
            push_call(
                calls,
                NsiCall::SetVisibility { handle: attrib_name(shell, faces[i]), visible: false },
            );
        }
        assert(call_views(calls@) =~= start + hiding_calls(shell, faces@.take(i + 1), stay@));
        i += 1;
    }
    assert(faces@.take(faces.len() as int) =~= faces@);
}

impl NsiRenderState {
    /// No nodes, and no render.
    pub fn new() -> (r: NsiRenderState)
        ensures
            r@ == Seq::<TrackedModel>::empty(),
            !r.is_rendering,
    {
        let r = NsiRenderState { shells: Vec::new(), is_rendering: false };
        assert(r@ =~= Seq::empty());
        r
    }

    fn find(&self, shell: usize) -> (r: usize)
        ensures
            r == place(self@, shell),
            r <= self.shells@.len(),
    {
        let mut i: usize = 0;
        while i < self.shells.len() && self.shells[i].shell != shell
            invariant
                i <= self.shells.len(),
                forall|k: int| 0 <= k < i ==> (#[trigger] self@[k]).shell != shell,
            decreases self.shells.len() - i,
        {
            i += 1;
        }
        proof {
            lemma_place(self@, shell, i as int);
        }
        i
    }

    /// What the renderer is told when a shell comes with surfaces for the
    /// given faces. Nodes that there are stay; faces that are not among the
    /// given ones are hidden.
    pub fn update_shell_brep(&mut self, shell: usize, faces: &[usize]) -> (r: Vec<NsiCall>)
        ensures
            call_views(r@) == update_calls(old(self)@, shell, faces@),
            final(self)@ == updated(old(self)@, shell, faces@),
            final(self).is_rendering == old(self).is_rendering,
    {
        let ghost scene = self@;
        if faces.len() == 0 {
            return self.hide_shell_faces(shell);
        }
        let mut calls: Vec<NsiCall> = Vec::new();
        assert(call_views(calls@) =~= Seq::empty());
        let at: usize = self.find(shell);
        let mut known: Vec<usize> = Vec::new();
        if at < self.shells.len() {
            known = copied(self.shells[at].faces.as_slice());
        } else {
            push_shell_calls(&mut calls, shell);
        }
        let ghost before = known@;
        assert(before == faces_of(scene, shell));
        push_call(&mut calls, NsiCall::SetMatrix { handle: transform_name(shell) });
        push_hiding_calls(&mut calls, shell, known.as_slice(), faces);
        let ghost head = call_views(calls@);
        let mut i: usize = 0;
        assert(head + making_calls(shell, before, faces@.take(0)) =~= head);
        while i < faces.len()
            invariant
                i <= faces.len(),
                known@ == with_faces(before, faces@.take(i as int)),
                call_views(calls@) == head + making_calls(shell, before, faces@.take(i as int)),
            decreases faces.len() - i,
        {
            assert(faces@.take(i + 1).drop_last() =~= faces@.take(i as int));
            if !list_has(known.as_slice(), faces[i]) {
                push_face_calls(&mut calls, shell, faces[i]);
                known.push(faces[i]);
            }
            assert(call_views(calls@) =~= head + making_calls(shell, before, faces@.take(i + 1)));
            i += 1;
        }
        assert(faces@.take(faces.len() as int) =~= faces@);
        let ghost made = call_views(calls@);
        let mut k: usize = 0;
        assert(made + surface_calls(shell, faces@).take(0) =~= made);
        while k < faces.len()
            invariant
                k <= faces.len(),
                call_views(calls@) == made + surface_calls(shell, faces@).take(k as int),
            decreases faces.len() - k,
        {
            push_call(
                &mut calls,
                NsiCall::SetSurface { handle: surface_name(shell, faces[k]), surface: k },
            );
            assert(call_views(calls@) =~= made + surface_calls(shell, faces@).take(k + 1));
            k += 1;
        }
        assert(surface_calls(shell, faces@).take(faces.len() as int) =~= surface_calls(
            shell,
            faces@,
        ));
        push_call(&mut calls, NsiCall::Synchronize);
        if at < self.shells.len() {
            self.shells[at].faces = known;
        } else {
            self.shells.push(TrackedShell { shell, faces: known });
        }
        proof {
            lemma_place_fits(scene, shell);
            assert(self@ =~= updated(scene, shell, faces@));
            assert(call_views(calls@) =~= update_calls(scene, shell, faces@));
        }
        calls
    }

    /// What the renderer is told to hide a shell.
    pub fn hide_shell_faces(&self, shell: usize) -> (r: Vec<NsiCall>)
        ensures
            call_views(r@) == hide_calls(self@, shell),
    {
        let mut calls: Vec<NsiCall> = Vec::new();
        assert(call_views(calls@) =~= Seq::empty());
        let at: usize = self.find(shell);
        if at < self.shells.len() && self.shells[at].faces.len() > 0 {
            let none: Vec<usize> = Vec::new();
            assert(none@ =~= Seq::empty());
            push_hiding_calls(
                &mut calls,
                shell,
                self.shells[at].faces.as_slice(),
                none.as_slice(),
            );
            push_call(&mut calls, NsiCall::Synchronize);
            assert(call_views(calls@) =~= hide_calls(self@, shell));
        }
        calls
    }

    /// What the renderer is told to hide all shells but those that stay.
    pub fn hide_unretained_shells(&self, keep: &[usize]) -> (r: Vec<NsiCall>)
        ensures
            call_views(r@) == unretained_calls(self@, self@, keep@),
    {
        let mut calls: Vec<NsiCall> = Vec::new();
        assert(call_views(calls@) =~= Seq::empty());
        let mut i: usize = 0;
        while i < self.shells.len()
            invariant
                i <= self.shells.len(),
                call_views(calls@) == unretained_calls(self@, self@.take(i as int), keep@),
            decreases self.shells.len() - i,
        {
            assert(self@.take(i + 1).drop_last() =~= self@.take(i as int));
            if !list_has(keep, self.shells[i].shell) {
                let mut more = self.hide_shell_faces(self.shells[i].shell);
                let ghost before = call_views(calls@);
                let ghost added = call_views(more@);
                calls.append(&mut more);
                assert(call_views(calls@) =~= before + added);
            }
            i += 1;
        }
        assert(self@.take(self.shells.len() as int) =~= self@);
        calls
    }

    /// What the renderer is told when faces are shown or hidden. Faces that it
    /// has no nodes for are passed over.
    pub fn set_face_visibilities(&self, updates: &[(usize, usize, bool)]) -> (r: Vec<NsiCall>)
        ensures
            call_views(r@) == ({
                let changes = visibility_calls(self@, updates@);
                if changes.len() > 0 {
                    changes.push(CallModel::Synchronize)
                } else {
                    changes
                }
            }),
    {
        let mut calls: Vec<NsiCall> = Vec::new();
        assert(call_views(calls@) =~= Seq::empty());
        let mut i: usize = 0;
        while i < updates.len()
            invariant
                i <= updates.len(),
                call_views(calls@) == visibility_calls(self@, updates@.take(i as int)),
            decreases updates.len() - i,
        {
            assert(updates@.take(i + 1).drop_last() =~= updates@.take(i as int));
            let (shell, face, visible) = updates[i];
            let at: usize = self.find(shell);
            if at < self.shells.len() && list_has(self.shells[at].faces.as_slice(), face) {
                push_call(
                    &mut calls,
                    NsiCall::SetVisibility { handle: attrib_name(shell, face), visible },
                );
            }
            i += 1;
        }
        assert(updates@.take(updates.len() as int) =~= updates@);
        if calls.len() > 0 {
            push_call(&mut calls, NsiCall::Synchronize);
        }
        calls
    }
}

/// The calls that hide those of the given shells that do not stay.
pub open spec fn unretained_calls(
    scene: Seq<TrackedModel>,
    shells: Seq<TrackedModel>,
    keep: Seq<usize>,
) -> Seq<CallModel>
    decreases shells.len(),
{
    if shells.len() == 0 {
        Seq::empty()
    } else {
        let rest = unretained_calls(scene, shells.drop_last(), keep);
        if keep.contains(shells.last().shell) {
            rest
        } else {
            rest + hide_calls(scene, shells.last().shell)
        }
    }
}

/// The calls that show or hide those of the faces that there are nodes for.
pub open spec fn visibility_calls(
    scene: Seq<TrackedModel>,
    updates: Seq<(usize, usize, bool)>,
) -> Seq<CallModel>
    decreases updates.len(),
{
    if updates.len() == 0 {
        Seq::empty()
    } else {
        let rest = visibility_calls(scene, updates.drop_last());
        let (shell, face, visible) = updates.last();
        if faces_of(scene, shell).contains(face) {
            rest.push(
                CallModel::SetVisibility(nsi_export::attrib_handle(shell, face), visible),
            )
        } else {
            rest
        }
    }
}

fn copied(list: &[usize]) -> (r: Vec<usize>)
    ensures
        r@ == list@,
{
    let mut out: Vec<usize> = Vec::new();
    let mut i: usize = 0;
    while i < list.len()
        invariant
            i <= list.len(),
            out@ == list@.take(i as int),
        decreases list.len() - i,
    {
        out.push(list[i]);
        assert(out@ =~= list@.take(i + 1));
        i += 1;
    }
    assert(list@.take(list.len() as int) =~= list@);
    out
}

proof fn lemma_faces_are_known(known: Seq<usize>, faces: Seq<usize>)
    ensures
        forall|i: int| 0 <= i < known.len() ==> with_faces(known, faces).contains(#[trigger] known[i]),
        forall|i: int| 0 <= i < faces.len() ==> with_faces(known, faces).contains(#[trigger] faces[i]),
    decreases faces.len(),
{
    if faces.len() == 0 {
        assert forall|i: int| 0 <= i < known.len() implies with_faces(known, faces).contains(
            #[trigger] known[i],
        ) by {
            assert(known.contains(known[i]));
        }
    } else {
        let fewer = faces.drop_last();
        lemma_faces_are_known(known, fewer);
        let before = with_faces(known, fewer);
        let after = with_faces(known, faces);
        assert forall|x: usize| before.contains(x) implies #[trigger] after.contains(x) by {
            let at = choose|at: int| 0 <= at < before.len() && before[at] == x;
            assert(after[at] == x);
        }
        if !before.contains(faces.last()) {
            assert(after.last() == faces.last());
        }
        assert forall|i: int| 0 <= i < faces.len() implies after.contains(#[trigger] faces[i]) by {
            if i < fewer.len() {
                assert(fewer[i] == faces[i]);
            }
        }
    }
}

proof fn lemma_known_faces_make_nothing(shell: usize, known: Seq<usize>, faces: Seq<usize>)
    requires
        forall|i: int| 0 <= i < faces.len() ==> known.contains(#[trigger] faces[i]),
    ensures
        making_calls(shell, known, faces) == Seq::<CallModel>::empty(),
        with_faces(known, faces) == known,
    decreases faces.len(),
{
    if faces.len() > 0 {
        let fewer = faces.drop_last();
        assert forall|i: int| 0 <= i < fewer.len() implies known.contains(#[trigger] fewer[i]) by {
            assert(fewer[i] == faces[i]);
        }
        lemma_known_faces_make_nothing(shell, known, fewer);
        assert(known.contains(faces[faces.len() - 1]));
    }
}

/// Geometry is made once: when a shell comes again with the same faces, no node
/// is made, and the renderer has nodes for the same faces as before.
pub proof fn law_nodes_are_made_once(scene: Seq<TrackedModel>, shell: usize, faces: Seq<usize>)
    ensures
        ({
            let after = updated(scene, shell, faces);
            &&& updated(after, shell, faces) == after
            &&& forall|i: int|
                0 <= i < update_calls(after, shell, faces).len() ==> !((
                #[trigger] update_calls(after, shell, faces)[i]) is Create)
        }),
{
    let after = updated(scene, shell, faces);
    let calls = update_calls(after, shell, faces);
    if faces.len() == 0 {
        lemma_hiding_makes_nothing(shell, faces_of(scene, shell), Seq::empty());
    } else {
        let at = place(scene, shell);
        lemma_place_fits(scene, shell);
        lemma_place(after, shell, at);
        let known = faces_of(after, shell);
        lemma_faces_are_known(faces_of(scene, shell), faces);
        lemma_known_faces_make_nothing(shell, known, faces);
        lemma_hiding_makes_nothing(shell, known, faces);
        assert(updated(after, shell, faces) =~= after);
        let hiding = hiding_calls(shell, known, faces);
        let surfaces = surface_calls(shell, faces);
        let matrix = seq![CallModel::SetMatrix(nsi_export::transform_handle(shell))];
        assert(calls =~= matrix + hiding + surfaces + seq![CallModel::Synchronize]);
    }
}

pub proof fn lemma_place_fits(scene: Seq<TrackedModel>, shell: usize)
    ensures
        0 <= place(scene, shell) <= scene.len(),
        place(scene, shell) < scene.len() ==> scene[place(scene, shell)].shell == shell,
        forall|i: int| 0 <= i < place(scene, shell) ==> (#[trigger] scene[i]).shell != shell,
    decreases scene.len(),
{
    if scene.len() > 0 && scene[0].shell != shell {
        let rest = scene.drop_first();
        lemma_place_fits(rest, shell);
        assert forall|i: int| 0 <= i < place(scene, shell) implies (#[trigger] scene[i]).shell
            != shell by {
            if i > 0 {
                assert(rest[i - 1] == scene[i]);
            }
        }
    }
}

proof fn lemma_hiding_makes_nothing(shell: usize, faces: Seq<usize>, stay: Seq<usize>)
    ensures
        forall|i: int|
            0 <= i < hiding_calls(shell, faces, stay).len() ==> (
            #[trigger] hiding_calls(shell, faces, stay)[i]) is SetVisibility,
    decreases faces.len(),
{
    if faces.len() > 0 {
        lemma_hiding_makes_nothing(shell, faces.drop_last(), stay);
    }
}

/// A command to the thread that drives the renderer.
#[derive(Clone, Copy, Debug, PartialEq, Eq, Structural)]
pub enum RenderCommand {
    Start,
    Stop,
    Synchronize,
}

/// What the thread has the renderer do.
#[derive(Clone, Copy, Debug, PartialEq, Eq, Structural)]
pub enum RenderAction {
    Start,
    Synchronize,
    Stop,
    Wait,
}

/// What the thread does about a command, if the renderer runs or not.
pub open spec fn actions_for(running: bool, command: RenderCommand) -> Seq<RenderAction> {
    match command {
        RenderCommand::Start => if running {
            Seq::empty()
        } else {
            seq![RenderAction::Start, RenderAction::Synchronize]
        },
        RenderCommand::Stop => if running {
            seq![RenderAction::Stop, RenderAction::Wait]
        } else {
            Seq::empty()
        },
        RenderCommand::Synchronize => if running {
            seq![RenderAction::Synchronize]
        } else {
            Seq::empty()
        },
    }
}

pub open spec fn runs_after(running: bool, command: RenderCommand) -> bool {
    match command {
        RenderCommand::Start => true,
        RenderCommand::Stop => false,
        RenderCommand::Synchronize => running,
    }
}

/// The thread that drives the renderer.
pub struct RenderThread {
    pub running: bool,
}

impl RenderThread {
    /// Takes a command over.
    pub fn handle(&mut self, command: RenderCommand) -> (r: Vec<RenderAction>)
        ensures
            r@ == actions_for(old(self).running, command),
            final(self).running == runs_after(old(self).running, command),
    {
        let mut actions: Vec<RenderAction> = Vec::new();
        match command {
            RenderCommand::Start => {
                if !self.running {
                    actions.push(RenderAction::Start);
                    actions.push(RenderAction::Synchronize);
                    self.running = true;
                }
            },
            RenderCommand::Stop => {
                if self.running {
                    actions.push(RenderAction::Stop);
                    actions.push(RenderAction::Wait);
                    self.running = false;
                }
            },
            RenderCommand::Synchronize => {
                if self.running {
                    actions.push(RenderAction::Synchronize);
                }
            },
        }
        assert(actions@ =~= actions_for(old(self).running, command));
        actions
    }

    /// No more commands come.
    pub fn finish(&mut self) -> (r: Vec<RenderAction>)
        ensures
            r@ == actions_for(old(self).running, RenderCommand::Stop),
            !final(self).running,
    {
        self.handle(RenderCommand::Stop)
    }
}

impl NsiRenderState {
    /// Asks for a render. Only the first time there is a command.
    pub fn start(&mut self) -> (r: Option<RenderCommand>)
        ensures
            final(self).is_rendering,
            final(self).shells == old(self).shells,
            r == (if old(self).is_rendering {
                None
            } else {
                Some(RenderCommand::Start)
            }),
    {
        if self.is_rendering {
            None
        } else {
            self.is_rendering = true;
            Some(RenderCommand::Start)
        }
    }

    /// Whether the renderer is told of the camera: something of it has changed.
    pub fn update_camera(&self, matrix_changed: bool, fov_changed: bool, clip_changed: bool) -> (r:
        bool)
        ensures
            r == (matrix_changed || fov_changed || clip_changed),
    {
        matrix_changed || fov_changed || clip_changed
    }

    /// Asks for no render. Only if there was one there is a command.
    pub fn stop(&mut self) -> (r: Option<RenderCommand>)
        ensures
            !final(self).is_rendering,
            final(self).shells == old(self).shells,
            r == (if old(self).is_rendering {
                Some(RenderCommand::Stop)
            } else {
                None
            }),
    {
        if self.is_rendering {
            self.is_rendering = false;
            Some(RenderCommand::Stop)
        } else {
            None
        }
    }
}

pub open spec fn starts_in(actions: Seq<RenderAction>) -> int
    decreases actions.len(),
{
    if actions.len() == 0 {
        0
    } else {
        starts_in(actions.drop_last()) + (if actions.last() == RenderAction::Start {
            1int
        } else if actions.last() == RenderAction::Stop {
            -1
        } else {
            0
        })
    }
}

/// What the thread does about commands that come one after the other.
pub open spec fn all_actions(running: bool, commands: Seq<RenderCommand>) -> Seq<RenderAction>
    decreases commands.len(),
{
    if commands.len() == 0 {
        Seq::empty()
    } else {
        all_actions(running, commands.drop_last()) + actions_for(
            runs_after_all(running, commands.drop_last()),
            commands.last(),
        )
    }
}

pub open spec fn runs_after_all(running: bool, commands: Seq<RenderCommand>) -> bool
    decreases commands.len(),
{
    if commands.len() == 0 {
        running
    } else {
        runs_after(runs_after_all(running, commands.drop_last()), commands.last())
    }
}

proof fn lemma_starts_append(a: Seq<RenderAction>, b: Seq<RenderAction>)
    ensures
        starts_in(a + b) == starts_in(a) + starts_in(b),
    decreases b.len(),
{
    if b.len() == 0 {
        assert(a + b =~= a);
    } else {
        lemma_starts_append(a, b.drop_last());
        assert((a + b).drop_last() =~= a + b.drop_last());
    }
}

/// Whatever commands come to a renderer at rest, starts and stops take turns:
/// there is one start more than there are stops while it runs, and as many as
/// stops while it rests.
pub proof fn law_starts_and_stops_take_turns(commands: Seq<RenderCommand>)
    ensures
        starts_in(all_actions(false, commands)) == (if runs_after_all(false, commands) {
            1int
        } else {
            0
        }),
    decreases commands.len(),
{
    if commands.len() > 0 {
        let fewer = commands.drop_last();
        law_starts_and_stops_take_turns(fewer);
        let running = runs_after_all(false, fewer);
        let last = actions_for(running, commands.last());
        lemma_starts_append(all_actions(false, fewer), last);
        reveal_with_fuel(starts_in, 3);
        if last.len() > 0 {
            assert(last.drop_last().len() == last.len() - 1);
        }
        match commands.last() {
            RenderCommand::Start => {
                if !running {
                    assert(last.drop_last() =~= seq![RenderAction::Start]);
                    assert(seq![RenderAction::Start].drop_last() =~= Seq::empty());
                }
            },
            RenderCommand::Stop => {
                if running {
                    assert(last.drop_last() =~= seq![RenderAction::Stop]);
                    assert(seq![RenderAction::Stop].drop_last() =~= Seq::empty());
                }
            },
            RenderCommand::Synchronize => {
                if running {
                    assert(last.drop_last() =~= Seq::empty());
                }
            },
        }
    }
}

/// A value of an attribute of a fixed node. A real number stands as its text.
#[derive(Clone, Copy, Debug, PartialEq, Eq)]
pub enum FixedValue {
    Whole(i32),
    TwoWhole(i32, i32),
    Real(&'static str),
    Text(&'static str),
    /// A grey, by the value of its three components.
    Grey(&'static str),
    /// The image that lights the scene.
    EnvironmentImage,
}

/// A step in setting up the nodes that every scene has.
#[derive(Clone, Copy, Debug, PartialEq, Eq)]
pub enum SetupStep {
    Create { handle: &'static str, kind: &'static str },
    Connect { from: &'static str, to: &'static str, slot: &'static str },
    Assign { handle: &'static str, name: &'static str, value: FixedValue },
}

pub ghost enum ValueModel {
    Whole(i32),
    TwoWhole(i32, i32),
    Real(Seq<char>),
    Text(Seq<char>),
    Grey(Seq<char>),
    EnvironmentImage,
}

pub ghost enum SetupModel {
    Create(Seq<char>, Seq<char>),
    Connect(Seq<char>, Seq<char>, Seq<char>),
    Assign(Seq<char>, Seq<char>, ValueModel),
}

impl View for FixedValue {
    type V = ValueModel;

    open spec fn view(&self) -> ValueModel {
        match self {
            FixedValue::Whole(n) => ValueModel::Whole(*n),
            FixedValue::TwoWhole(a, b) => ValueModel::TwoWhole(*a, *b),
            FixedValue::Real(t) => ValueModel::Real(t@),
            FixedValue::Text(t) => ValueModel::Text(t@),
            FixedValue::Grey(t) => ValueModel::Grey(t@),
            FixedValue::EnvironmentImage => ValueModel::EnvironmentImage,
        }
    }
}

impl View for SetupStep {
    type V = SetupModel;

    open spec fn view(&self) -> SetupModel {
        match self {
            SetupStep::Create { handle, kind } => SetupModel::Create(handle@, kind@),
            SetupStep::Connect { from, to, slot } => SetupModel::Connect(from@, to@, slot@),
            SetupStep::Assign { handle, name, value } => SetupModel::Assign(handle@, name@, value@),
        }
    }
}

pub open spec fn setup_views(steps: Seq<SetupStep>) -> Seq<SetupModel> {
    steps.map_values(|s: SetupStep| s@)
}

/// Camera and screen.
pub open spec fn camera_setup() -> Seq<SetupModel> {
    let xform = "mstpv_camera_xform"@;
    let camera = "mstpv_camera"@;
    let screen = "mstpv_screen"@;
    seq![
        SetupModel::Create(xform, "transform"@),
        SetupModel::Connect(xform, ".root"@, "objects"@),
        SetupModel::Create(camera, "perspectivecamera"@),
        SetupModel::Connect(camera, xform, "objects"@),
        SetupModel::Assign(camera, "fov"@, ValueModel::Real("45"@)),
        SetupModel::Create(screen, "screen"@),
        SetupModel::Connect(screen, camera, "screens"@),
        SetupModel::Assign(screen, "resolution"@, ValueModel::TwoWhole(1024, 1024)),
        SetupModel::Assign(screen, "oversampling"@, ValueModel::Whole(16)),
    ]
}

/// The layer of the image, and where it is shown.
pub open spec fn output_setup() -> Seq<SetupModel> {
    let layer = "mstpv_beauty"@;
    let driver = "mstpv_driver"@;
    seq![
        SetupModel::Create(layer, "outputlayer"@),
        SetupModel::Assign(layer, "variablename"@, ValueModel::Text("Ci"@)),
        SetupModel::Assign(layer, "withalpha"@, ValueModel::Whole(1)),
        SetupModel::Assign(layer, "scalarformat"@, ValueModel::Text("uint8"@)),
        SetupModel::Assign(layer, "colorprofile"@, ValueModel::Text("srgb"@)),
        SetupModel::Connect(layer, "mstpv_screen"@, "outputlayers"@),
        SetupModel::Create(driver, "outputdriver"@),
        SetupModel::Connect(driver, layer, "outputdrivers"@),
        SetupModel::Assign(driver, "drivername"@, ValueModel::Text("idisplay"@)),
        SetupModel::Assign(driver, "imagefilename"@, ValueModel::Text("mstpv_nsi"@)),
    ]
}

/// The shader of all surfaces, and the light from around.
pub open spec fn light_setup() -> Seq<SetupModel> {
    let shader = "mstpv_shader"@;
    let env = "mstpv_env"@;
    let attrib = "mstpv_env_attrib"@;
    let light = "mstpv_env_shader"@;
    seq![
        SetupModel::Create(shader, "shader"@),
        SetupModel::Assign(
            shader,
            "shaderfilename"@,
            ValueModel::Text("${DELIGHT}/osl/dlPrincipled"@),
        ),
        SetupModel::Assign(shader, "i_color"@, ValueModel::Grey("0.8"@)),
        SetupModel::Assign(shader, "roughness"@, ValueModel::Real("0.3"@)),
        SetupModel::Create(env, "environment"@),
        SetupModel::Connect(env, ".root"@, "objects"@),
        SetupModel::Create(attrib, "attributes"@),
        SetupModel::Connect(attrib, env, "geometryattributes"@),
        SetupModel::Assign(attrib, "visibility.camera"@, ValueModel::Whole(0)),
        SetupModel::Create(light, "shader"@),
        SetupModel::Connect(light, attrib, "surfaceshader"@),
        SetupModel::Assign(
            light,
            "shaderfilename"@,
            ValueModel::Text("${DELIGHT}/osl/environmentLight"@),
        ),
        SetupModel::Assign(light, "image"@, ValueModel::EnvironmentImage),
        SetupModel::Assign(light, "intensity"@, ValueModel::Real("1"@)),
    ]
}

fn create(steps: &mut Vec<SetupStep>, handle: &'static str, kind: &'static str)
    ensures
        setup_views(final(steps)@) == setup_views(old(steps)@).push(
            SetupModel::Create(handle@, kind@),
        ),
{
    steps.push(SetupStep::Create { handle, kind });
    assert(setup_views(steps@) =~= setup_views(old(steps)@).push(
        SetupModel::Create(handle@, kind@),
    ));
}

fn connect(
    steps: &mut Vec<SetupStep>,
    from: &'static str,
    to: &'static str,
    slot: &'static str,
)
    ensures
        setup_views(final(steps)@) == setup_views(old(steps)@).push(
            SetupModel::Connect(from@, to@, slot@),
        ),
{
    steps.push(SetupStep::Connect { from, to, slot });
    assert(setup_views(steps@) =~= setup_views(old(steps)@).push(
        SetupModel::Connect(from@, to@, slot@),
    ));
}

fn set(steps: &mut Vec<SetupStep>, handle: &'static str, name: &'static str, value: FixedValue)
    ensures
        setup_views(final(steps)@) == setup_views(old(steps)@).push(
            SetupModel::Assign(handle@, name@, value@),
        ),
{
    steps.push(SetupStep::Assign { handle, name, value });
    assert(setup_views(steps@) =~= setup_views(old(steps)@).push(
        SetupModel::Assign(handle@, name@, value@),
    ));
}

fn push_camera_setup(steps: &mut Vec<SetupStep>)
    ensures
        setup_views(final(steps)@) == setup_views(old(steps)@) + camera_setup(),
{
    create(steps, "mstpv_camera_xform", "transform");
    connect(steps, "mstpv_camera_xform", ".root", "objects");
    create(steps, "mstpv_camera", "perspectivecamera");
    connect(steps, "mstpv_camera", "mstpv_camera_xform", "objects");
    set(steps, "mstpv_camera", "fov", FixedValue::Real("45"));
    create(steps, "mstpv_screen", "screen");
    connect(steps, "mstpv_screen", "mstpv_camera", "screens");
    set(steps, "mstpv_screen", "resolution", FixedValue::TwoWhole(1024, 1024));
    set(steps, "mstpv_screen", "oversampling", FixedValue::Whole(16));
    assert(setup_views(steps@) =~= setup_views(old(steps)@) + camera_setup());
}

fn push_output_setup(steps: &mut Vec<SetupStep>)
    ensures
        setup_views(final(steps)@) == setup_views(old(steps)@) + output_setup(),
{
    create(steps, "mstpv_beauty", "outputlayer");
    set(steps, "mstpv_beauty", "variablename", FixedValue::Text("Ci"));
    set(steps, "mstpv_beauty", "withalpha", FixedValue::Whole(1));
    set(steps, "mstpv_beauty", "scalarformat", FixedValue::Text("uint8"));
    set(steps, "mstpv_beauty", "colorprofile", FixedValue::Text("srgb"));
    connect(steps, "mstpv_beauty", "mstpv_screen", "outputlayers");
    create(steps, "mstpv_driver", "outputdriver");
    connect(steps, "mstpv_driver", "mstpv_beauty", "outputdrivers");
    set(steps, "mstpv_driver", "drivername", FixedValue::Text("idisplay"));
    set(steps, "mstpv_driver", "imagefilename", FixedValue::Text("mstpv_nsi"));
    assert(setup_views(steps@) =~= setup_views(old(steps)@) + output_setup());
}

fn push_light_setup(steps: &mut Vec<SetupStep>)
    ensures
        setup_views(final(steps)@) == setup_views(old(steps)@) + light_setup(),
{
    create(steps, "mstpv_shader", "shader");
    set(
        steps,
        "mstpv_shader",
        "shaderfilename",
        FixedValue::Text("${DELIGHT}/osl/dlPrincipled"),
    );
    set(steps, "mstpv_shader", "i_color", FixedValue::Grey("0.8"));
    set(steps, "mstpv_shader", "roughness", FixedValue::Real("0.3"));
    create(steps, "mstpv_env", "environment");
    connect(steps, "mstpv_env", ".root", "objects");
    create(steps, "mstpv_env_attrib", "attributes");
    connect(steps, "mstpv_env_attrib", "mstpv_env", "geometryattributes");
    set(steps, "mstpv_env_attrib", "visibility.camera", FixedValue::Whole(0));
    create(steps, "mstpv_env_shader", "shader");
    connect(steps, "mstpv_env_shader", "mstpv_env_attrib", "surfaceshader");
    set(
        steps,
        "mstpv_env_shader",
        "shaderfilename",
        FixedValue::Text("${DELIGHT}/osl/environmentLight"),
    );
    set(steps, "mstpv_env_shader", "image", FixedValue::EnvironmentImage);
    set(steps, "mstpv_env_shader", "intensity", FixedValue::Real("1"));
    assert(setup_views(steps@) =~= setup_views(old(steps)@) + light_setup());
}

/// The nodes that every scene has: camera, screen, image, shader and light.
pub fn create_scene_nodes() -> (r: Vec<SetupStep>)
    ensures
        setup_views(r@) == camera_setup() + output_setup() + light_setup(),
{
    let mut steps: Vec<SetupStep> = Vec::new();
    assert(setup_views(steps@) =~= Seq::empty());
    push_camera_setup(&mut steps);
    push_output_setup(&mut steps);
    push_light_setup(&mut steps);
    assert(setup_views(steps@) =~= camera_setup() + output_setup() + light_setup());
    steps
}

/// The node was made before the given step.
pub open spec fn is_made(steps: Seq<SetupModel>, handle: Seq<char>, before: int) -> bool {
    exists|i: int, kind: Seq<char>|
        0 <= i < before && #[trigger] steps[i] == (#[trigger] made(handle, kind))
}

pub open spec fn made(handle: Seq<char>, kind: Seq<char>) -> SetupModel {
    SetupModel::Create(handle, kind)
}

/// What a step needs is there: a node that is given a value or is connected was
/// made before, and so was the node that it is connected to, unless that is the
/// root.
pub open spec fn step_fits(steps: Seq<SetupModel>, at: int) -> bool {
    match steps[at] {
        SetupModel::Create(_, _) => true,
        SetupModel::Connect(from, to, _) => is_made(steps, from, at) && (to == ".root"@ || is_made(
            steps,
            to,
            at,
        )),
        SetupModel::Assign(handle, _, _) => is_made(steps, handle, at),
    }
}

/// In setting up a scene, no node is used before it is made.
pub proof fn law_nodes_are_made_before_use()
    ensures
        ({
            let steps = camera_setup() + output_setup() + light_setup();
            forall|at: int| 0 <= at < steps.len() ==> #[trigger] step_fits(steps, at)
        }),
{
    let steps = camera_setup() + output_setup() + light_setup();
    assert(steps.len() == 33);
    assert(steps[0] == made("mstpv_camera_xform"@, "transform"@));
    assert(steps[2] == made("mstpv_camera"@, "perspectivecamera"@));
    assert(steps[5] == made("mstpv_screen"@, "screen"@));
    assert(steps[9] == made("mstpv_beauty"@, "outputlayer"@));
    assert(steps[15] == made("mstpv_driver"@, "outputdriver"@));
    assert(steps[19] == made("mstpv_shader"@, "shader"@));
    assert(steps[23] == made("mstpv_env"@, "environment"@));
    assert(steps[25] == made("mstpv_env_attrib"@, "attributes"@));
    assert(steps[28] == made("mstpv_env_shader"@, "shader"@));
    assert forall|at: int| 0 <= at < steps.len() implies #[trigger] step_fits(steps, at) by {
        if at < 9 {
            assert(steps[at] == camera_setup()[at]);
        } else if at < 19 {
            assert(steps[at] == output_setup()[at - 9]);
        } else {
            assert(steps[at] == light_setup()[at - 19]);
        }
    }
}

} // verus!
