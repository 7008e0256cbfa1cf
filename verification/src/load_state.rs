//! What the viewer knows of the file that it shows or loads.
//!
//! `Q` is the path of a file and `B` the bounds of a scene; `M`, `P`, `D` and
//! `A` are those of a shell.

use vstd::prelude::*;

use crate::loader::{LoadMessage, LoadPhase};
use crate::model::StepShell;
use crate::order::reversed;
use crate::parameter::StepMetadata;

verus! {

/// A load that the viewer waits for.
pub struct LoadJob<Q> {
    pub path: Q,
    pub phase: LoadPhase,
    pub current_shell: usize,
    pub total_shells: usize,
}

/// What the viewer knows of the file that it shows or loads.
pub struct LoadState<Q, M, P, D, A, B> {
    pub loaded_path: Option<Q>,
    pub metadata: Option<StepMetadata>,
    pub error: Option<String>,
    pub job: Option<LoadJob<Q>>,
    /// The shells of the scene, once there is one.
    pub scene: Option<Vec<StepShell<M, P, D, A>>>,
    /// The bounds that shells are shown in.
    pub bounds: Option<B>,
    /// Whether some face of the scene is shown.
    pub has_faces: bool,
    /// Whether some shell of the scene bounds a solid.
    pub has_solid_topology: bool,
}

/// What is to be done about a message.
pub enum LoadEffect<B> {
    Nothing,
    /// The view is to be fitted to the bounds.
    Frame(B),
    /// The shell at this place is to be shown.
    Show(usize),
    /// The load has succeeded. If no face is shown yet, all shells are to be.
    Finished { show_all: bool },
    /// The load has failed.
    Failed,
}

/// Where a load comes from.
#[derive(Clone, Copy, Debug, PartialEq, Eq, Structural)]
pub enum LoadRequest {
    /// The shells at hand are tessellated anew.
    Retessellate,
    File,
    Text,
    Nothing,
}

/// The largest number of shells that are taken over at a time.
pub const MAX_SHELLS_PER_FRAME: usize = 4;

pub open spec fn scene_shells<Q, M, P, D, A, B>(s: LoadState<Q, M, P, D, A, B>) -> Seq<
    StepShell<M, P, D, A>,
> {
    match s.scene {
        Some(shells) => shells@,
        None => Seq::empty(),
    }
}

pub open spec fn any_solid<M, P, D, A>(shells: Seq<StepShell<M, P, D, A>>) -> bool {
    exists|i: int| 0 <= i < shells.len() && (#[trigger] shells[i]).is_solid()
}

/// The message ends a load.
pub open spec fn is_last<S, B>(m: LoadMessage<S, B>) -> bool {
    m is Done || m is Error
}

/// One state follows from another by a message. Nothing but what the message
/// is about changes.
pub open spec fn follows<Q, M, P, D, A, B>(
    old: LoadState<Q, M, P, D, A, B>,
    m: LoadMessage<StepShell<M, P, D, A>, B>,
    new: LoadState<Q, M, P, D, A, B>,
) -> bool {
    match m {
        LoadMessage::Phase(phase) => new == (LoadState {
            job: match old.job {
                Some(job) => Some(LoadJob { phase, current_shell: 0, ..job }),
                None => None,
            },
            ..old
        }),
        LoadMessage::Bounds(b) => new == (LoadState { bounds: Some(b), ..old }),
        LoadMessage::Metadata(meta) => new == (LoadState { metadata: Some(meta), ..old }),
        LoadMessage::TotalShells(total) => new == (LoadState {
            job: match old.job {
                Some(job) => Some(LoadJob { total_shells: total, ..job }),
                None => None,
            },
            ..old
        }),
        LoadMessage::Progress { phase, current, total } => new == (LoadState {
            job: match old.job {
                Some(job) => Some(
                    LoadJob { phase, current_shell: current, total_shells: total, ..job },
                ),
                None => None,
            },
            ..old
        }),
        LoadMessage::Shell(shell) => {
            &&& new == (LoadState { scene: new.scene, has_faces: new.has_faces, ..old })
            &&& new.scene is Some
            &&& scene_shells(new) == scene_shells(old).push(shell)
            &&& new.has_faces == (old.has_faces || old.bounds is Some && shell.faces@.len() > 0)
        },
        LoadMessage::Done => new == (LoadState {
            loaded_path: match old.job {
                Some(job) => Some(job.path),
                None => None,
            },
            job: None,
            has_solid_topology: any_solid(scene_shells(old)),
            ..old
        }),
        LoadMessage::Error(text) => new == (LoadState { error: Some(text), job: None, ..old }),
    }
}

/// What is to be done about a message.
pub open spec fn effect_of<Q, M, P, D, A, B>(
    old: LoadState<Q, M, P, D, A, B>,
    m: LoadMessage<StepShell<M, P, D, A>, B>,
) -> LoadEffect<B> {
    match m {
        LoadMessage::Bounds(b) => LoadEffect::Frame(b),
        LoadMessage::Shell(_) => if old.bounds is Some {
            LoadEffect::Show(scene_shells(old).len() as usize)
        } else {
            LoadEffect::Nothing
        },
        LoadMessage::Done => LoadEffect::Finished { show_all: !old.has_faces },
        LoadMessage::Error(_) => LoadEffect::Failed,
        _ => LoadEffect::Nothing,
    }
}

/// What a load that breaks off is told.
pub open spec fn broken_off_text() -> Seq<char> {
    "STEP loader stopped unexpectedly before completion"@
}

/// The number of messages that are looked at: those up to the first that ends
/// the load.
pub open spec fn heard<S, B>(messages: Seq<LoadMessage<S, B>>) -> int
    decreases messages.len(),
{
    if messages.len() == 0 {
        0
    } else if is_last(messages[0]) {
        1
    } else {
        1 + heard(messages.drop_first())
    }
}

/// The states lead from the first to the last by the messages.
pub open spec fn is_course<Q, M, P, D, A, B>(
    states: Seq<LoadState<Q, M, P, D, A, B>>,
    messages: Seq<LoadMessage<StepShell<M, P, D, A>, B>>,
) -> bool {
    &&& states.len() == messages.len() + 1
    &&& forall|i: int|
        0 <= i < messages.len() ==> follows(states[i], #[trigger] messages[i], states[i + 1])
}

/// The effects are those of the messages, each in the state that it meets.
pub open spec fn are_effects<Q, M, P, D, A, B>(
    effects: Seq<LoadEffect<B>>,
    states: Seq<LoadState<Q, M, P, D, A, B>>,
    messages: Seq<LoadMessage<StepShell<M, P, D, A>, B>>,
) -> bool {
    &&& effects.len() == messages.len()
    &&& forall|i: int|
        0 <= i < messages.len() ==> #[trigger] effects[i] == effect_of(states[i], messages[i])
}

proof fn lemma_heard<S, B>(messages: Seq<LoadMessage<S, B>>, n: int)
    requires
        0 <= n <= messages.len(),
        forall|i: int| 0 <= i < n ==> !is_last(#[trigger] messages[i]),
    ensures
        heard(messages) == (if n < messages.len() && is_last(messages[n]) {
            n + 1
        } else {
            n + heard(messages.skip(n))
        }),
    decreases n,
{
    assert(messages.skip(0) =~= messages);
    if n > 0 {
        lemma_heard(messages.drop_first(), n - 1);
        assert(messages.drop_first().skip(n - 1) =~= messages.skip(n));
    }
}

impl<Q, M, P, D, A, B> LoadState<Q, M, P, D, A, B> {
    /// Nothing shown and nothing loaded.
    pub fn new() -> (r: LoadState<Q, M, P, D, A, B>)
        ensures
            r == (LoadState::<Q, M, P, D, A, B> {
                loaded_path: None,
                metadata: None,
                error: None,
                job: None,
                scene: None,
                bounds: None,
                has_faces: false,
                has_solid_topology: false,
            }),
    {
        LoadState {
            loaded_path: None,
            metadata: None,
            error: None,
            job: None,
            scene: None,
            bounds: None,
            has_faces: false,
            has_solid_topology: false,
        }
    }

    /// The load that is to be started. A request to tessellate anew is served
    /// if shells are at hand and no load is under way.
    pub fn next_request(&self, retessellate: bool, file: bool, text: bool) -> (r: LoadRequest)
        ensures
            r == (if retessellate && self.job is None && self.scene is Some {
                LoadRequest::Retessellate
            } else if file {
                LoadRequest::File
            } else if text {
                LoadRequest::Text
            } else {
                LoadRequest::Nothing
            }),
    {
        if retessellate && self.job.is_none() && self.scene.is_some() {
            LoadRequest::Retessellate
        } else if file {
            LoadRequest::File
        } else if text {
            LoadRequest::Text
        } else {
            LoadRequest::Nothing
        }
    }

    /// A load starts: what was known of another file is forgotten, but for
    /// the bounds.
    pub fn begin(&mut self, path: Q)
        ensures
            *final(self) == (LoadState {
                loaded_path: None,
                metadata: None,
                error: None,
                job: Some(
                    LoadJob {
                        path,
                        phase: LoadPhase::Reading,
                        current_shell: 0,
                        total_shells: 0,
                    },
                ),
                scene: None,
                has_faces: false,
                ..*old(self)
            }),
    {
        self.loaded_path = None;
        self.metadata = None;
        self.error = None;
        self.scene = None;
        self.has_faces = false;
        self.job = Some(
            LoadJob { path, phase: LoadPhase::Reading, current_shell: 0, total_shells: 0 },
        );
    }

    /// The shells are taken to be tessellated anew; the header stays.
    pub fn begin_retessellation(&mut self, path: Q) -> (r: Vec<StepShell<M, P, D, A>>)
        ensures
            r@ == scene_shells(*old(self)),
            *final(self) == (LoadState {
                error: None,
                job: Some(
                    LoadJob {
                        path,
                        phase: LoadPhase::Meshing,
                        current_shell: 0,
                        total_shells: 0,
                    },
                ),
                scene: final(self).scene,
                has_faces: false,
                ..*old(self)
            }),
            final(self).scene is Some,
            scene_shells(*final(self)) == Seq::<StepShell<M, P, D, A>>::empty(),
    {
        let shells = match self.scene.take() {
            Some(shells) => shells,
            None => Vec::new(),
        };
        self.error = None;
        self.has_faces = false;
        self.scene = Some(Vec::new());
        self.job = Some(
            LoadJob { path, phase: LoadPhase::Meshing, current_shell: 0, total_shells: 0 },
        );
        shells
    }

    fn has_solid(&self) -> (r: bool)
        ensures
            r == any_solid(scene_shells(*self)),
    {
        match &self.scene {
            None => false,
            Some(shells) => {
                let mut i: usize = 0;
                while i < shells.len()
                    invariant
                        i <= shells.len(),
                        shells@ == scene_shells(*self),
                        forall|k: int| 0 <= k < i ==> !(#[trigger] shells@[k]).is_solid(),
                    decreases shells.len() - i,
                {
                    if shells[i].has_solid_topology() {
                        assert(shells@[i as int].is_solid());
                        return true;
                    }
                    i += 1;
                }
                false
            },
        }
    }

    /// Takes a message over.
    pub fn receive(&mut self, message: LoadMessage<StepShell<M, P, D, A>, B>) -> (r: LoadEffect<B>)
        where B: Copy
        ensures
            follows(*old(self), message, *final(self)),
            r == effect_of(*old(self), message),
    {
        match message {
            LoadMessage::Phase(phase) => {
                match self.job.take() {
                    Some(job) => {
                        self.job = Some(LoadJob { phase, current_shell: 0, ..job });
                    },
                    None => {},
                }
                LoadEffect::Nothing
            },
            LoadMessage::Bounds(b) => {
                self.bounds = Some(b);
                LoadEffect::Frame(b)
            },
            LoadMessage::Metadata(meta) => {
                self.metadata = Some(meta);
                LoadEffect::Nothing
            },
            LoadMessage::TotalShells(total) => {
                match self.job.take() {
                    Some(job) => {
                        self.job = Some(LoadJob { total_shells: total, ..job });
                    },
                    None => {},
                }
                LoadEffect::Nothing
            },
            LoadMessage::Progress { phase, current, total } => {
                match self.job.take() {
                    Some(job) => {
                        self.job = Some(
                            LoadJob {
                                phase,
                                current_shell: current,
                                total_shells: total,
                                ..job
                            },
                        );
                    },
                    None => {},
                }
                LoadEffect::Nothing
            },
            LoadMessage::Shell(shell) => {
                let shown = self.bounds.is_some();
                if shown && shell.faces.len() > 0 {
                    self.has_faces = true;
                }
                let mut shells = match self.scene.take() {
                    Some(shells) => shells,
                    None => Vec::new(),
                };
                let at: usize = shells.len();
                shells.push(shell);
                self.scene = Some(shells);
                if shown {
                    LoadEffect::Show(at)
                } else {
                    LoadEffect::Nothing
                }
            },
            LoadMessage::Done => {
                let has_solid = self.has_solid();
                self.has_solid_topology = has_solid;
                self.loaded_path = match self.job.take() {
                    Some(job) => Some(job.path),
                    None => None,
                };
                LoadEffect::Finished { show_all: !self.has_faces }
            },
            LoadMessage::Error(text) => {
                self.error = Some(text);
                self.job = None;
                LoadEffect::Failed
            },
        }
    }

    /// Takes over the messages of a frame, up to the first that ends the load.
    /// If none does and no more can come, the load has broken off.
    pub fn receive_all(
        &mut self,
        messages: Vec<LoadMessage<StepShell<M, P, D, A>, B>>,
        disconnected: bool,
    ) -> (r: Vec<LoadEffect<B>>)
        where B: Copy
        ensures
            ({
                let taken = messages@.take(heard(messages@));
                let ended = taken.len() > 0 && is_last(taken.last());
                exists|states: Seq<LoadState<Q, M, P, D, A, B>>|
                    {
                        &&& #[trigger] is_course(states, taken)
                        &&& states[0] == *old(self)
                        &&& are_effects(r@, states, taken)
                        &&& if disconnected && !ended {
                            &&& *final(self) == (LoadState {
                                error: final(self).error,
                                job: None,
                                ..states.last()
                            })
                            &&& final(self).error matches Some(text) && text@ == broken_off_text()
                        } else {
                            *final(self) == states.last()
                        }
                    }
            }),
    {
        let ghost given = messages@;
        let ghost mut states: Seq<LoadState<Q, M, P, D, A, B>> = seq![*self];
        let mut rest = reversed(messages);
        let mut effects: Vec<LoadEffect<B>> = Vec::new();
        let ghost mut n: int = 0;
        assert(given.take(0) =~= Seq::empty());
        while rest.len() > 0
            invariant
                given == messages@,
                0 <= n <= given.len(),
                rest@ == given.reverse().take(given.len() - n),
                forall|i: int| 0 <= i < n ==> !is_last(#[trigger] given[i]),
                is_course(states, given.take(n)),
                states[0] == *old(self),
                states.last() == *self,
                are_effects(effects@, states, given.take(n)),
            decreases rest.len(),
        {
            match rest.pop() {
                Some(message) => {
                    let ended = match &message {
                        LoadMessage::Done => true,
                        LoadMessage::Error(_) => true,
                        _ => false,
                    };
                    assert(message == given[n]);
                    let ghost before = states;
                    let effect = self.receive(message);
                    effects.push(effect);
                    proof {
                        states = states.push(*self);
                        let taken = given.take(n + 1);
                        assert forall|i: int| 0 <= i < taken.len() implies follows(
                            states[i],
                            #[trigger] taken[i],
                            states[i + 1],
                        ) by {
                            if i < n {
                                assert(given.take(n)[i] == taken[i]);
                                assert(follows(before[i], given.take(n)[i], before[i + 1]));
                            }
                        }
                        assert forall|i: int| 0 <= i < taken.len() implies #[trigger] effects@[i]
                            == effect_of(states[i], taken[i]) by {
                            if i < n {
                                assert(given.take(n)[i] == taken[i]);
                            }
                        }
                        n = n + 1;
                    }
                    if ended {
                        proof {
                            lemma_heard(given, n - 1);
                            assert(is_course(states, given.take(n)));
                        }
                        return effects;
                    }
                },
                None => {},
            }
        }
        proof {
            lemma_heard(given, n);
            assert(given.skip(n) =~= Seq::empty());
            assert(given.take(n) =~= given);
        }
        if disconnected {
            let mut text = String::new();
            text.append("STEP loader stopped unexpectedly before completion");
            assert(text@ =~= broken_off_text());
            self.error = Some(text);
            self.job = None;
        }
        effects
    }
}

/// Once a load has ended, the viewer waits for none.
pub proof fn law_no_job_after_the_end<Q, M, P, D, A, B>(
    old: LoadState<Q, M, P, D, A, B>,
    message: LoadMessage<StepShell<M, P, D, A>, B>,
    new: LoadState<Q, M, P, D, A, B>,
)
    requires
        follows(old, message, new),
        is_last(message),
    ensures
        new.job is None,
{
}

pub open spec fn shells_of<M, P, D, A, B>(
    messages: Seq<LoadMessage<StepShell<M, P, D, A>, B>>,
) -> Seq<StepShell<M, P, D, A>>
    decreases messages.len(),
{
    if messages.len() == 0 {
        Seq::empty()
    } else {
        match messages.last() {
            LoadMessage::Shell(s) => shells_of(messages.drop_last()).push(s),
            _ => shells_of(messages.drop_last()),
        }
    }
}

/// The scene holds the shells that were sent, in the order in which they came.
pub proof fn law_scene_holds_sent_shells<Q, M, P, D, A, B>(
    states: Seq<LoadState<Q, M, P, D, A, B>>,
    messages: Seq<LoadMessage<StepShell<M, P, D, A>, B>>,
)
    requires
        is_course(states, messages),
    ensures
        scene_shells(states.last()) == scene_shells(states[0]) + shells_of(messages),
    decreases messages.len(),
{
    if messages.len() == 0 {
        assert(scene_shells(states[0]) + shells_of(messages) =~= scene_shells(states[0]));
    } else {
        let n = messages.len() - 1;
        let fewer = messages.drop_last();
        let shorter = states.drop_last();
        assert forall|i: int| 0 <= i < fewer.len() implies follows(
            shorter[i],
            #[trigger] fewer[i],
            shorter[i + 1],
        ) by {
            assert(fewer[i] == messages[i]);
        }
        law_scene_holds_sent_shells(shorter, fewer);
        assert(follows(states[n], messages[n], states[n + 1]));
        assert(shorter.last() == states[n]);
        assert(scene_shells(states.last()) =~= scene_shells(states[0]) + shells_of(messages));
    }
}

/// How many shells were taken over in a frame.
pub struct FrameBudget {
    shells: usize,
}

impl FrameBudget {
    pub closed spec fn shells(&self) -> nat {
        self.shells as nat
    }

    pub fn new() -> (r: FrameBudget)
        ensures
            r.shells() == 0,
    {
        FrameBudget { shells: 0 }
    }

    /// Counts a message, and tells whether the next one has to wait for
    /// another frame.
    pub fn is_spent<S, B>(&mut self, message: &LoadMessage<S, B>) -> (r: bool)
        requires
            old(self).shells() < MAX_SHELLS_PER_FRAME,
        ensures
            final(self).shells() == old(self).shells() + (if message is Shell {
                1nat
            } else {
                0
            }),
            r == (final(self).shells() >= MAX_SHELLS_PER_FRAME),
    {
        match message {
            LoadMessage::Shell(_) => {
                self.shells = self.shells + 1;
            },
            _ => {},
        }
        self.shells >= MAX_SHELLS_PER_FRAME
    }
}

} // verus!
