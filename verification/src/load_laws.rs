//! What holds of loads from their beginning to their end.

use vstd::prelude::*;

use crate::load_state;
use crate::load_state::{LoadEffect, LoadState};
use crate::loader;
use crate::loader::{LoadMessage, LoadOrigin, LoadPhase, LoadStage, LogEntry};
use crate::model::StepShell;

verus! {

/// Each message shows in the state what it tells: the phase and the counts of
/// the load, the bounds, the header, a shell or an error. The path of the load
/// stays until it ends, and a phase counts from none.
pub proof fn law_messages_are_taken_over<Q, M, P, D, A, B>(
    old: LoadState<Q, M, P, D, A, B>,
    m: LoadMessage<StepShell<M, P, D, A>, B>,
    new: LoadState<Q, M, P, D, A, B>,
)
    requires
        load_state::follows(old, m, new),
    ensures
        !load_state::is_last(m) ==> (old.job is Some <==> new.job is Some),
        !load_state::is_last(m) && old.job is Some ==> (new.job->0).path == (old.job->0).path,
        load_state::is_last(m) ==> new.job is None,
        old.job is Some ==> match m {
            LoadMessage::Phase(phase) => {
                let job = new.job->0;
                job.phase == phase && job.current_shell == 0 && job.total_shells == (
                old.job->0).total_shells
            },
            LoadMessage::TotalShells(total) => {
                let job = new.job->0;
                job.total_shells == total && job.phase == (old.job->0).phase && job.current_shell
                    == (old.job->0).current_shell
            },
            LoadMessage::Progress { phase, current, total } => {
                let job = new.job->0;
                job.phase == phase && job.current_shell == current && job.total_shells == total
            },
            _ => load_state::is_last(m) || new.job == old.job,
        },
        m matches LoadMessage::Bounds(b) ==> new.bounds == Some(b),
        !(m is Bounds) ==> new.bounds == old.bounds,
        m matches LoadMessage::Metadata(meta) ==> new.metadata == Some(meta),
        !(m is Metadata) ==> new.metadata == old.metadata,
        m matches LoadMessage::Error(text) ==> new.error == Some(text) && new.loaded_path
            == old.loaded_path,
        !(m is Error) ==> new.error == old.error,
        m matches LoadMessage::Shell(shell) ==> load_state::scene_shells(new).len()
            == load_state::scene_shells(old).len() + 1 && load_state::scene_shells(new).last()
            == shell,
        !(m is Shell) ==> new.scene == old.scene,
        m is Done && old.job is Some ==> new.loaded_path == Some((old.job->0).path),
        !(m is Done) ==> new.loaded_path == old.loaded_path && new.has_solid_topology
            == old.has_solid_topology,
{
}

/// A load that ends well has loaded the path that it began with.
pub proof fn law_loaded_path_is_the_one_asked_for<Q, M, P, D, A, B>(
    states: Seq<LoadState<Q, M, P, D, A, B>>,
    messages: Seq<LoadMessage<StepShell<M, P, D, A>, B>>,
)
    requires
        load_state::is_course(states, messages),
        messages.len() > 0,
        forall|i: int|
            0 <= i < messages.len() - 1 ==> !load_state::is_last(#[trigger] messages[i]),
        messages[messages.len() - 1] is Done,
        states[0].job is Some,
    ensures
        states[messages.len() as int].loaded_path == Some((states[0].job->0).path),
        states[messages.len() as int].job is None,
        states[messages.len() as int].error == states[0].error,
        states[messages.len() as int].has_solid_topology <==> exists|i: int|
            0 <= i < load_state::scene_shells(states[messages.len() as int]).len() && (
            #[trigger] load_state::scene_shells(states[messages.len() as int])[i]).is_solid(),
{
    let n = messages.len() - 1;
    lemma_job_stays(states, messages, n);
    assert(load_state::follows(states[n], messages[n], states[n + 1]));
    let shells = load_state::scene_shells(states[n]);
    assert(load_state::scene_shells(states[n + 1]) == shells);
    assert(states[n + 1].has_solid_topology == load_state::any_solid(shells));
    if load_state::any_solid(shells) {
        let i = choose|i: int| 0 <= i < shells.len() && (#[trigger] shells[i]).is_solid();
        assert(load_state::scene_shells(states[messages.len() as int])[i].is_solid());
    }
}

proof fn lemma_job_stays<Q, M, P, D, A, B>(
    states: Seq<LoadState<Q, M, P, D, A, B>>,
    messages: Seq<LoadMessage<StepShell<M, P, D, A>, B>>,
    n: int,
)
    requires
        load_state::is_course(states, messages),
        0 <= n <= messages.len(),
        forall|i: int| 0 <= i < n ==> !load_state::is_last(#[trigger] messages[i]),
        states[0].job is Some,
    ensures
        states[n].job is Some,
        (states[n].job->0).path == (states[0].job->0).path,
        states[n].error == states[0].error,
    decreases n,
{
    if n > 0 {
        lemma_job_stays(states, messages, n - 1);
        assert(load_state::follows(states[n - 1], messages[n - 1], states[n]));
        law_messages_are_taken_over(states[n - 1], messages[n - 1], states[n]);
    }
}

/// The message brings a shell with faces while there are bounds to show it in.
pub open spec fn brings_faces<Q, M, P, D, A, B>(
    state: LoadState<Q, M, P, D, A, B>,
    m: LoadMessage<StepShell<M, P, D, A>, B>,
) -> bool {
    state.bounds is Some && (m matches LoadMessage::Shell(shell) && shell.faces@.len() > 0)
}

proof fn lemma_faces<Q, M, P, D, A, B>(
    states: Seq<LoadState<Q, M, P, D, A, B>>,
    messages: Seq<LoadMessage<StepShell<M, P, D, A>, B>>,
    n: int,
)
    requires
        load_state::is_course(states, messages),
        0 <= n <= messages.len(),
        !states[0].has_faces,
    ensures
        states[n].has_faces <==> exists|i: int|
            0 <= i < n && #[trigger] brings_faces(states[i], messages[i]),
    decreases n,
{
    if n > 0 {
        lemma_faces(states, messages, n - 1);
        assert(load_state::follows(states[n - 1], messages[n - 1], states[n]));
        assert(states[n].has_faces <==> states[n - 1].has_faces || brings_faces(
            states[n - 1],
            messages[n - 1],
        ));
    }
}

/// A shell that comes while there are bounds is shown, at the place that it gets
/// in the scene. At the end all shells are shown if and only if no face was
/// shown before.
pub proof fn law_shells_are_shown<Q, M, P, D, A, B>(
    states: Seq<LoadState<Q, M, P, D, A, B>>,
    messages: Seq<LoadMessage<StepShell<M, P, D, A>, B>>,
    n: int,
)
    requires
        load_state::is_course(states, messages),
        0 <= n < messages.len(),
        !states[0].has_faces,
        load_state::scene_shells(states[n]).len() <= usize::MAX,
    ensures
        messages[n] matches LoadMessage::Shell(shell) ==> match load_state::effect_of(
            states[n],
            messages[n],
        ) {
            LoadEffect::Show(at) => states[n].bounds is Some && load_state::scene_shells(
                states[n + 1],
            )[at as int] == shell,
            LoadEffect::Nothing => states[n].bounds is None,
            _ => false,
        },
        messages[n] is Done ==> match load_state::effect_of(states[n], messages[n]) {
            LoadEffect::Finished { show_all } => show_all <==> !exists|i: int|
                0 <= i < n && #[trigger] brings_faces(states[i], messages[i]),
            _ => false,
        },
        messages[n] matches LoadMessage::Bounds(b) ==> load_state::effect_of(
            states[n],
            messages[n],
        ) == LoadEffect::Frame(b),
        messages[n] is Error <==> load_state::effect_of(states[n], messages[n]) is Failed,
{
    lemma_faces(states, messages, n);
    assert(load_state::follows(states[n], messages[n], states[n + 1]));
}

/// A load is heard up to the first message that ends it, and that one with it.
pub proof fn law_load_is_heard_to_its_end<S, B>(messages: Seq<LoadMessage<S, B>>)
    ensures
        0 <= load_state::heard(messages) <= messages.len(),
        forall|i: int|
            0 <= i < load_state::heard(messages) - 1 ==> !(#[trigger] messages[i] is Done) && !(
            messages[i] is Error),
        load_state::heard(messages) < messages.len() ==> load_state::heard(messages) > 0 && (
        messages[load_state::heard(messages) - 1] is Done || messages[load_state::heard(messages)
            - 1] is Error),
    decreases messages.len(),
{
    if messages.len() > 0 && !load_state::is_last(messages[0]) {
        let rest = messages.drop_first();
        law_load_is_heard_to_its_end(rest);
        assert forall|i: int| 0 <= i < load_state::heard(messages) - 1 implies !(
        #[trigger] messages[i] is Done) && !(messages[i] is Error) by {
            if i > 0 {
                assert(rest[i - 1] == messages[i]);
            }
        }
    }
}

/// A load that has ended well told first that it tessellates, then one shell
/// after the other, then the bounds if there are any, then the shells, and at
/// last that it is done.
pub proof fn law_load_tells_in_order(origin: LoadOrigin, total: nat, done: nat, bounded: bool, i: int)
    requires
        0 <= i < total,
    ensures
        ({
            let log = loader::course(LoadStage::Finished, origin, total, done, bounded);
            let shells = log.len() - 1 - total;
            let meshed = if bounded {
                shells - 1
            } else {
                shells
            };
            let meshing = meshed - total;
            &&& meshing > 0
            &&& log[meshing - 1] == LogEntry::Phase(LoadPhase::Meshing)
            &&& log[meshing + i] == LogEntry::Progress(LoadPhase::Meshing, (i + 1) as nat, total)
            &&& bounded ==> log[meshed] == LogEntry::Bounds
            &&& log[shells + i] == LogEntry::Shell
            &&& log[log.len() - 1] == LogEntry::Done
            &&& origin != LoadOrigin::Shells ==> {
                let prepared = meshing - 1 - total;
                &&& prepared > 3
                &&& log[prepared - 4] == LogEntry::Phase(LoadPhase::Parsing)
                &&& log[prepared - 3] == LogEntry::Metadata
                &&& log[prepared - 2] == LogEntry::Phase(LoadPhase::Preparing)
                &&& log[prepared - 1] == LogEntry::TotalShells(total)
                &&& log[prepared + i] == LogEntry::Progress(
                    LoadPhase::Preparing,
                    (i + 1) as nat,
                    total,
                )
            }
            &&& origin == LoadOrigin::File ==> log[0] == LogEntry::Phase(LoadPhase::Reading)
            &&& origin == LoadOrigin::Shells ==> log[0] == LogEntry::TotalShells(total)
        }),
{
}

/// Numbers of shells that fit are told as they are.
pub proof fn law_small_counts_are_told(n: usize)
    requires
        n <= u16::MAX,
    ensures
        loader::low_word(n) == n,
{
}

} // verus!
