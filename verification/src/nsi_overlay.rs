//! The image of the renderer over the view: when geometry and visibility are
//! handed over, and what is shown in the meantime.

use std::collections::HashMap;
use vstd::prelude::*;

use crate::records;
use crate::records::{Facts, Hierarchy};
use crate::selection::list_contains;

verus! {

broadcast use vstd::std_specs::hash::group_hash_axioms;

/// The state of the image of the renderer.
pub struct OverlaySwitch {
    pub enabled: bool,
    /// Whether the renderer is there.
    pub available: bool,
    /// Whether the renderer is to be set up.
    pub init_requested: bool,
    /// Whether an image has come.
    pub has_frame: bool,
}

impl OverlaySwitch {
    /// Tells whether the renderer is to be set up now: it was asked for, it is
    /// there, and it is not set up yet. The request is used up.
    pub fn takes_setup(&mut self, has_render: bool) -> (r: bool)
        ensures
            r == (old(self).init_requested && !has_render && old(self).available),
            *final(self) == (OverlaySwitch { init_requested: false, ..*old(self) }),
    {
        let requested = self.init_requested;
        self.init_requested = false;
        requested && !has_render && self.available
    }

    /// The renderer could not be set up.
    pub fn setup_failed(&mut self)
        ensures
            *final(self) == (OverlaySwitch { available: false, enabled: false, ..*old(self) }),
    {
        self.available = false;
        self.enabled = false;
    }

    /// Whether the meshes are kept out of the view because the image of the
    /// renderer is shown.
    pub fn suppresses_meshes(&self) -> (r: bool)
        ensures
            r == (self.enabled && self.has_frame),
    {
        self.enabled && self.has_frame
    }
}

/// Tells whether geometry is to be handed over: the image is on, the renderer
/// is set up, there is a scene, and it is another one than was handed over.
pub fn pushes_scene(enabled: bool, has_render: bool, scene: Option<u64>, pushed: Option<u64>) -> (r:
    bool)
    ensures
        r == (enabled && has_render && scene is Some && scene != pushed),
{
    match scene {
        None => false,
        Some(s) => {
            enabled && has_render && match pushed {
                Some(p) => s != p,
                None => true,
            }
        },
    }
}

/// What becomes of a mesh in the view: hidden while the image is shown, and as
/// its shell is once it is not any more. Otherwise it stays.
pub fn mesh_visibility(suppressed: bool, was_suppressed: bool, shell_visible: Option<bool>) -> (r:
    Option<bool>)
    ensures
        r == (if suppressed {
            Some(false)
        } else if was_suppressed {
            shell_visible
        } else {
            None
        }),
{
    if suppressed {
        Some(false)
    } else if was_suppressed {
        shell_visible
    } else {
        None
    }
}

/// How the texture takes over rows of the image.
#[derive(Clone, Copy, Debug, PartialEq, Eq, Structural)]
pub enum TextureUpdate {
    /// There is none yet.
    Create,
    /// It has another size.
    Replace,
    /// Only the rows that have come.
    Rows,
}

pub fn texture_update(texture: Option<(usize, usize)>, width: usize, height: usize) -> (r:
    TextureUpdate)
    ensures
        r == (match texture {
            None => TextureUpdate::Create,
            Some(size) => if size == (width, height) {
                TextureUpdate::Rows
            } else {
                TextureUpdate::Replace
            },
        }),
{
    match texture {
        None => TextureUpdate::Create,
        Some((w, h)) => {
            if w == width && h == height {
                TextureUpdate::Rows
            } else {
                TextureUpdate::Replace
            }
        },
    }
}

/// A face of a shell in one number.
pub open spec fn face_key(shell: usize, face: usize) -> u128 {
    (shell as int * 0x1_0000_0000_0000_0000 + face as int) as u128
}

fn key_of(shell: usize, face: usize) -> (r: u128)
    ensures
        r == face_key(shell, face),
{
    shell as u128 * 0x1_0000_0000_0000_0000 + face as u128
}

proof fn lemma_keys_differ(a: (usize, usize), b: (usize, usize))
    requires
        face_key(a.0, a.1) == face_key(b.0, b.1),
    ensures
        a == b,
{
}

/// What the renderer was last told of faces.
pub struct PushedVisibility {
    faces: HashMap<u128, bool>,
}

impl PushedVisibility {
    pub closed spec fn told(&self) -> Map<u128, bool> {
        self.faces@
    }

    /// Nothing was told.
    pub fn new() -> (r: PushedVisibility)
        ensures
            r.told() == Map::<u128, bool>::empty(),
    {
        PushedVisibility { faces: HashMap::new() }
    }

    /// Forgets what was told.
    pub fn clear(&mut self)
        ensures
            final(self).told() == Map::<u128, bool>::empty(),
    {
        self.faces = HashMap::new();
    }

    /// What the renderer is to be told: the faces of shells that were handed
    /// over, as far as they are to be seen otherwise than it was last told.
    pub fn updates<C>(&self, hierarchy: &Hierarchy<C>, pushed: &Vec<usize>) -> (r: Vec<
        (usize, usize, bool),
    >)
        ensures
            r@ == changes(hierarchy@, hierarchy@.faces, pushed@, self.told()),
    {
        let ghost facts = hierarchy@;
        let mut out: Vec<(usize, usize, bool)> = Vec::new();
        let mut i: usize = 0;
        while i < hierarchy.faces.len()
            invariant
                i <= hierarchy.faces.len(),
                facts == hierarchy@,
                out@ == changes(facts, facts.faces.take(i as int), pushed@, self.told()),
            decreases hierarchy.faces.len() - i,
        {
            let face = &hierarchy.faces[i];
            proof {
                assert(facts.faces[i as int] == face@);
                assert(facts.faces.take(i + 1).drop_last() =~= facts.faces.take(i as int));
            }
            if list_contains(pushed, face.shell_id) {
                let visible = face.visible && hierarchy.is_shell_visible(face.shell_id);
                let key = key_of(face.shell_id, face.source_face_id);
                let same = match self.faces.get(&key) {
                    Some(was) => *was == visible,
                    None => false,
                };
                if !same {
                    out.push((face.shell_id, face.source_face_id, visible));
                }
            }
            i += 1;
        }
        assert(facts.faces.take(facts.faces.len() as int) =~= facts.faces);
        out
    }

    /// The renderer was told.
    pub fn record(&mut self, updates: &[(usize, usize, bool)])
        ensures
            final(self).told() == after_changes(old(self).told(), updates@),
    {
        let ghost start = self.faces@;
        let mut i: usize = 0;
        while i < updates.len()
            invariant
                i <= updates.len(),
                self.faces@ == after_changes(start, updates@.take(i as int)),
            decreases updates.len() - i,
        {
            assert(updates@.take(i + 1).drop_last() =~= updates@.take(i as int));
            let (shell, face, visible) = updates[i];
            self.faces.insert(key_of(shell, face), visible);
            i += 1;
        }
        assert(updates@.take(updates.len() as int) =~= updates@);
    }
}

/// Whether a face is to be seen: neither it nor its shell is hidden.
pub open spec fn is_seen<C>(facts: Facts<C>, face: records::FaceFacts<C>) -> bool {
    face.visible && facts.shell_visible(face.shell_id)
}

pub open spec fn was_told(told: Map<u128, bool>, shell: usize, face: usize, visible: bool) -> bool {
    told.contains_key(face_key(shell, face)) && told[face_key(shell, face)] == visible
}

/// What is to be told of the given faces.
pub open spec fn changes<C>(
    facts: Facts<C>,
    faces: Seq<records::FaceFacts<C>>,
    pushed: Seq<usize>,
    told: Map<u128, bool>,
) -> Seq<(usize, usize, bool)>
    decreases faces.len(),
{
    if faces.len() == 0 {
        Seq::empty()
    } else {
        let rest = changes(facts, faces.drop_last(), pushed, told);
        let face = faces.last();
        let seen = is_seen(facts, face);
        if pushed.contains(face.shell_id) && !was_told(
            told,
            face.shell_id,
            face.source_face_id,
            seen,
        ) {
            rest.push((face.shell_id, face.source_face_id, seen))
        } else {
            rest
        }
    }
}

/// What was told once the changes were.
pub open spec fn after_changes(told: Map<u128, bool>, updates: Seq<(usize, usize, bool)>) -> Map<
    u128,
    bool,
>
    decreases updates.len(),
{
    if updates.len() == 0 {
        told
    } else {
        let (shell, face, visible) = updates.last();
        after_changes(told, updates.drop_last()).insert(face_key(shell, face), visible)
    }
}

/// No two faces have the same number in the same shell.
pub open spec fn faces_differ<C>(faces: Seq<records::FaceFacts<C>>) -> bool {
    forall|i: int, j: int|
        0 <= i < j < faces.len() ==> (#[trigger] faces[i]).shell_id != (#[trigger] faces[j]).shell_id
            || faces[i].source_face_id != faces[j].source_face_id
}

proof fn lemma_changes_reach<C>(
    facts: Facts<C>,
    faces: Seq<records::FaceFacts<C>>,
    pushed: Seq<usize>,
    told: Map<u128, bool>,
)
    requires
        faces_differ(faces),
    ensures
        forall|i: int|
            0 <= i < faces.len() && pushed.contains((#[trigger] faces[i]).shell_id) ==> was_told(
                after_changes(told, changes(facts, faces, pushed, told)),
                faces[i].shell_id,
                faces[i].source_face_id,
                is_seen(facts, faces[i]),
            ),
        forall|shell: usize, face: usize|
            #![trigger face_key(shell, face)]
            (forall|i: int|
                0 <= i < faces.len() ==> (#[trigger] faces[i]).shell_id != shell
                    || faces[i].source_face_id != face) ==> (after_changes(
                told,
                changes(facts, faces, pushed, told),
            ).contains_key(face_key(shell, face)) == told.contains_key(face_key(shell, face))
                && after_changes(told, changes(facts, faces, pushed, told))[face_key(shell, face)]
                == told[face_key(shell, face)]),
    decreases faces.len(),
{
    if faces.len() > 0 {
        let fewer = faces.drop_last();
        assert(faces_differ(fewer)) by {
            assert forall|i: int, j: int| 0 <= i < j < fewer.len() implies (
            #[trigger] fewer[i]).shell_id != (#[trigger] fewer[j]).shell_id
                || fewer[i].source_face_id != fewer[j].source_face_id by {
                assert(fewer[i] == faces[i] && fewer[j] == faces[j]);
            }
        }
        lemma_changes_reach(facts, fewer, pushed, told);
        let face = faces.last();
        let before = changes(facts, fewer, pushed, told);
        let all = changes(facts, faces, pushed, told);
        let m0 = after_changes(told, before);
        let m1 = after_changes(told, all);
        let last_key = face_key(face.shell_id, face.source_face_id);
        if all != before {
            assert(all.drop_last() =~= before);
        }
        assert forall|i: int| 0 <= i < fewer.len() implies (#[trigger] fewer[i]).shell_id
            != face.shell_id || fewer[i].source_face_id != face.source_face_id by {
            assert(fewer[i] == faces[i]);
            assert(faces[faces.len() - 1] == face);
        }
        assert(m0.contains_key(last_key) == told.contains_key(last_key));
        assert(m0[last_key] == told[last_key]);
        assert forall|i: int|
            0 <= i < faces.len() && pushed.contains((#[trigger] faces[i]).shell_id) implies was_told(
            m1,
            faces[i].shell_id,
            faces[i].source_face_id,
            is_seen(facts, faces[i]),
        ) by {
            if i < fewer.len() {
                assert(fewer[i] == faces[i]);
                let key = face_key(faces[i].shell_id, faces[i].source_face_id);
                if key == last_key {
                    lemma_keys_differ(
                        (faces[i].shell_id, faces[i].source_face_id),
                        (face.shell_id, face.source_face_id),
                    );
                }
            }
        }
        assert forall|shell: usize, f: usize|
            #![trigger face_key(shell, f)]
            (forall|i: int|
                0 <= i < faces.len() ==> (#[trigger] faces[i]).shell_id != shell
                    || faces[i].source_face_id != f) implies m1.contains_key(face_key(shell, f))
            == told.contains_key(face_key(shell, f)) && m1[face_key(shell, f)] == told[face_key(
            shell,
            f,
        )] by {
            assert forall|i: int| 0 <= i < fewer.len() implies (#[trigger] fewer[i]).shell_id
                != shell || fewer[i].source_face_id != f by {
                assert(fewer[i] == faces[i]);
            }
            if face_key(shell, f) == last_key {
                lemma_keys_differ((shell, f), (face.shell_id, face.source_face_id));
                assert(faces[faces.len() - 1] == face);
            }
        }
    }
}

proof fn lemma_nothing_to_tell<C>(
    facts: Facts<C>,
    faces: Seq<records::FaceFacts<C>>,
    pushed: Seq<usize>,
    told: Map<u128, bool>,
)
    requires
        forall|i: int|
            0 <= i < faces.len() && pushed.contains((#[trigger] faces[i]).shell_id) ==> was_told(
                told,
                faces[i].shell_id,
                faces[i].source_face_id,
                is_seen(facts, faces[i]),
            ),
    ensures
        changes(facts, faces, pushed, told) == Seq::<(usize, usize, bool)>::empty(),
    decreases faces.len(),
{
    if faces.len() > 0 {
        let fewer = faces.drop_last();
        assert forall|i: int|
            0 <= i < fewer.len() && pushed.contains((#[trigger] fewer[i]).shell_id) implies was_told(
            told,
            fewer[i].shell_id,
            fewer[i].source_face_id,
            is_seen(facts, fewer[i]),
        ) by {
            assert(fewer[i] == faces[i]);
        }
        lemma_nothing_to_tell(facts, fewer, pushed, told);
        assert(faces[faces.len() - 1] == faces.last());
    }
}

/// Once the renderer was told of the changes, there is nothing more to tell, as
/// long as no two faces have the same number in the same shell.
pub proof fn law_changes_are_told_once<C>(facts: Facts<C>, pushed: Seq<usize>, told: Map<u128, bool>)
    requires
        faces_differ(facts.faces),
    ensures
        changes(
            facts,
            facts.faces,
            pushed,
            after_changes(told, changes(facts, facts.faces, pushed, told)),
        ) == Seq::<(usize, usize, bool)>::empty(),
{
    lemma_changes_reach(facts, facts.faces, pushed, told);
    lemma_nothing_to_tell(
        facts,
        facts.faces,
        pushed,
        after_changes(told, changes(facts, facts.faces, pushed, told)),
    );
}

} // verus!
