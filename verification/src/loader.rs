//! The course of a load: its phases, its progress and its messages.
//!
//! `S` is a loaded shell and `B` the bounds of a scene.

use vstd::prelude::*;

use crate::order::reversed;
use crate::parameter::StepMetadata;

verus! {

/// A coarse phase of a load.
#[derive(Clone, Copy, Debug, PartialEq, Eq, Structural)]
pub enum LoadPhase {
    /// Reading bytes from disk.
    Reading,
    /// Parsing the text into entities and assembly data.
    Parsing,
    /// Converting topology and computing bounds.
    Preparing,
    /// Tessellating shells.
    Meshing,
}

impl LoadPhase {
    pub open spec fn label_text(self) -> Seq<char> {
        match self {
            LoadPhase::Reading => "Reading STEP file"@,
            LoadPhase::Parsing => "Parsing STEP file"@,
            LoadPhase::Preparing => "Preparing topology"@,
            LoadPhase::Meshing => "Tessellating shells"@,
        }
    }

    /// What is shown of the phase.
    pub fn label(self) -> (r: &'static str)
        ensures
            r@ == self.label_text(),
    {
        match self {
            LoadPhase::Reading => "Reading STEP file",
            LoadPhase::Parsing => "Parsing STEP file",
            LoadPhase::Preparing => "Preparing topology",
            LoadPhase::Meshing => "Tessellating shells",
        }
    }
}

/// Where the progress of loads is kept: one entry for each load.
pub struct ProgressBoard {
    /// Of each entry the first number in the upper half, the second in the
    /// lower.
    packed: Vec<u32>,
}

/// Progress of a load: how many of how many shells are done. The numbers stand
/// on a board, and all clones stand for the same entry of it.
#[derive(Clone, Copy, Debug, PartialEq, Eq, Structural)]
pub struct LoadProgress {
    entry: usize,
}

pub open spec fn low_word(n: usize) -> u16 {
    (n % 65536) as u16
}

pub open spec fn unpacked(packed: u32) -> (u16, u16) {
    ((packed / 65536) as u16, (packed % 65536) as u16)
}

impl View for ProgressBoard {
    type V = Seq<(u16, u16)>;

    closed spec fn view(&self) -> Seq<(u16, u16)> {
        self.packed@.map_values(|packed: u32| unpacked(packed))
    }
}

impl ProgressBoard {
    /// A board without entries.
    pub fn new() -> (r: ProgressBoard)
        ensures
            r@ == Seq::<(u16, u16)>::empty(),
    {
        let r = ProgressBoard { packed: Vec::new() };
        assert(r@ =~= Seq::<(u16, u16)>::empty());
        r
    }
}

impl Default for ProgressBoard {
    fn default() -> (r: ProgressBoard)
        ensures
            r@ == Seq::<(u16, u16)>::empty(),
    {
        ProgressBoard::new()
    }
}

impl LoadProgress {
    /// The entry on the board.
    pub closed spec fn entry(&self) -> int {
        self.entry as int
    }

    /// The entry is one of the board.
    pub open spec fn stands_on(&self, board: ProgressBoard) -> bool {
        0 <= self.entry() < board@.len()
    }

    /// A new entry: nothing done of nothing.
    pub fn new(board: &mut ProgressBoard) -> (r: LoadProgress)
        ensures
            final(board)@ == old(board)@.push((0u16, 0u16)),
            r.entry() == old(board)@.len(),
    {
        let entry: usize = board.packed.len();
        board.packed.push(0);
        assert(board@ =~= old(board)@.push((0u16, 0u16)));
        LoadProgress { entry }
    }

    /// Tells whether the entry is one of the board.
    pub fn is_on(&self, board: &ProgressBoard) -> (r: bool)
        ensures
            r == self.stands_on(*board),
    {
        self.entry < board.packed.len()
    }

    pub fn set(&self, board: &mut ProgressBoard, current: u16, total: u16)
        requires
            self.stands_on(*old(board)),
        ensures
            final(board)@ == old(board)@.update(self.entry(), (current, total)),
    {
        let packed: u32 = ((current as u32) << 16) | (total as u32);
        assert(packed == (current as u32) * 65536 + total as u32) by (bit_vector)
            requires
                packed == ((current as u32) << 16) | (total as u32),
        ;
        board.packed[self.entry] = packed;
        assert(board@ =~= old(board)@.update(self.entry(), (current, total)));
    }

    /// Sets the numbers, of which only the lower halves are kept.
    pub fn set_counts(&self, board: &mut ProgressBoard, done: usize, total: usize)
        requires
            self.stands_on(*old(board)),
        ensures
            final(board)@ == old(board)@.update(self.entry(), (low_word(done), low_word(total))),
    {
        self.set(board, (done % 65536) as u16, (total % 65536) as u16);
    }

    pub fn get(&self, board: &ProgressBoard) -> (r: (u16, u16))
        requires
            self.stands_on(*board),
        ensures
            r == board@[self.entry()],
    {
        let packed: u32 = board.packed[self.entry];
        assert(packed >> 16 == packed / 65536) by (bit_vector);
        assert(packed & 0xFFFF == packed % 65536) by (bit_vector);
        ((packed >> 16) as u16, (packed & 0xFFFF) as u16)
    }
}

/// The board with an entry set, as [`LoadProgress::set`] leaves it.
pub open spec fn after_set(
    board: Seq<(u16, u16)>,
    p: LoadProgress,
    current: u16,
    total: u16,
) -> Seq<(u16, u16)> {
    board.update(p.entry(), (current, total))
}

/// What is set through a clone is what is read through any other, both numbers
/// whole, and the progress of other loads stays.
pub proof fn law_clones_share_progress(
    board: Seq<(u16, u16)>,
    p: LoadProgress,
    clone: LoadProgress,
    other: LoadProgress,
    current: u16,
    total: u16,
)
    requires
        clone == p,
        0 <= p.entry() < board.len(),
    ensures
        after_set(board, clone, current, total)[p.entry()] == (current, total),
        after_set(board, p, current, total)[clone.entry()] == (current, total),
        0 <= other.entry() < board.len() && other.entry() != p.entry() ==> after_set(
            board,
            clone,
            current,
            total,
        )[other.entry()] == board[other.entry()],
{
}

/// A new progress reads as nothing done of nothing, and no progress that was
/// there before is changed by it.
pub proof fn law_new_progress_is_zero(board: Seq<(u16, u16)>, p: LoadProgress)
    requires
        p.entry() == board.len(),
    ensures
        board.push((0u16, 0u16))[p.entry()] == (0u16, 0u16),
        forall|i: int| 0 <= i < board.len() ==> board.push((0u16, 0u16))[i] == board[i],
{
}

/// A message of a load to whoever waits for it.
pub enum LoadMessage<S, B> {
    /// Another phase begins.
    Phase(LoadPhase),
    /// The bounds of the scene.
    Bounds(B),
    /// What the header says.
    Metadata(StepMetadata),
    /// The number of shells.
    TotalShells(usize),
    /// Progress within a phase.
    Progress { phase: LoadPhase, current: usize, total: usize },
    /// A finished shell.
    Shell(S),
    /// The load has succeeded.
    Done,
    /// The load has failed.
    Error(String),
}

/// A message without what it carries.
pub ghost enum LogEntry {
    Phase(LoadPhase),
    Bounds,
    Metadata,
    TotalShells(nat),
    Progress(LoadPhase, nat, nat),
    Shell,
    Done,
    Error(Seq<char>),
}

pub open spec fn log_entry<S, B>(m: LoadMessage<S, B>) -> LogEntry {
    match m {
        LoadMessage::Phase(p) => LogEntry::Phase(p),
        LoadMessage::Bounds(_) => LogEntry::Bounds,
        LoadMessage::Metadata(_) => LogEntry::Metadata,
        LoadMessage::TotalShells(n) => LogEntry::TotalShells(n as nat),
        LoadMessage::Progress { phase, current, total } => LogEntry::Progress(
            phase,
            current as nat,
            total as nat,
        ),
        LoadMessage::Shell(_) => LogEntry::Shell,
        LoadMessage::Done => LogEntry::Done,
        LoadMessage::Error(text) => LogEntry::Error(text@),
    }
}

pub open spec fn log_of<S, B>(messages: Seq<LoadMessage<S, B>>) -> Seq<LogEntry> {
    messages.map_values(|m: LoadMessage<S, B>| log_entry(m))
}

/// The message ends a load.
pub open spec fn ends(e: LogEntry) -> bool {
    e is Done || e is Error
}

/// Where a load stands.
#[derive(Clone, Copy, Debug, PartialEq, Eq, Structural)]
pub enum LoadStage {
    Reading,
    Parsing,
    Preparing,
    Meshing,
    Finished,
    Failed,
}

/// What a load starts from.
#[derive(Clone, Copy, Debug, PartialEq, Eq, Structural)]
pub enum LoadOrigin {
    File,
    Text,
    /// The shells of an earlier load, which are tessellated anew.
    Shells,
}

/// A load under way.
pub struct LoadRun {
    stage: LoadStage,
    /// The number of shells, once it is known.
    total: usize,
    /// How many are done in the current phase.
    done: usize,
    origin: LoadOrigin,
    /// Whether bounds were found.
    bounded: bool,
    log: Ghost<Seq<LogEntry>>,
}

/// The messages of the progress in a phase.
pub open spec fn counted(phase: LoadPhase, done: nat, total: nat) -> Seq<LogEntry> {
    Seq::new(done, |i: int| LogEntry::Progress(phase, (i + 1) as nat, total))
}

/// The messages of a load up to the given stage, which has not failed. What
/// starts from shells goes straight on to tessellating them.
pub open spec fn course(
    stage: LoadStage,
    origin: LoadOrigin,
    total: nat,
    done: nat,
    bounded: bool,
) -> Seq<LogEntry> {
    let start = if origin == LoadOrigin::File {
        seq![LogEntry::Phase(LoadPhase::Reading)]
    } else {
        Seq::empty()
    };
    let parsing = start + seq![LogEntry::Phase(LoadPhase::Parsing)];
    let opened = if origin == LoadOrigin::Shells {
        seq![LogEntry::TotalShells(total)]
    } else {
        parsing + seq![
            LogEntry::Metadata,
            LogEntry::Phase(LoadPhase::Preparing),
            LogEntry::TotalShells(total),
        ]
    };
    let prepared = if origin == LoadOrigin::Shells {
        opened
    } else {
        opened + counted(LoadPhase::Preparing, total, total)
    };
    let meshing = prepared + seq![LogEntry::Phase(LoadPhase::Meshing)];
    match stage {
        LoadStage::Reading => start,
        LoadStage::Parsing => parsing,
        LoadStage::Preparing => opened + counted(LoadPhase::Preparing, done, total),
        LoadStage::Meshing => meshing + counted(LoadPhase::Meshing, done, total),
        _ => meshing + counted(LoadPhase::Meshing, total, total) + (if bounded {
            seq![LogEntry::Bounds]
        } else {
            Seq::empty()
        }) + Seq::new(total, |i: int| LogEntry::Shell) + seq![LogEntry::Done],
    }
}

/// What a load of a text without shells is told.
pub open spec fn no_shells_text() -> Seq<char> {
    "No shells found in STEP file"@
}

impl LoadRun {
    pub closed spec fn stage(&self) -> LoadStage {
        self.stage
    }

    pub closed spec fn total(&self) -> nat {
        self.total as nat
    }

    pub closed spec fn done(&self) -> nat {
        self.done as nat
    }

    pub closed spec fn origin(&self) -> LoadOrigin {
        self.origin
    }

    pub closed spec fn bounded(&self) -> bool {
        self.bounded
    }

    /// The messages so far.
    pub closed spec fn log(&self) -> Seq<LogEntry> {
        self.log@
    }

    /// The messages so far are those of the course of a load, or those of the
    /// start of such a course and an error.
    pub open spec fn valid(&self) -> bool {
        &&& self.done() <= self.total()
        &&& self.stage() == LoadStage::Finished ==> self.total() > 0
        &&& self.stage() == LoadStage::Meshing ==> self.total() > 0
        &&& self.origin() == LoadOrigin::Shells ==> self.stage() == LoadStage::Meshing
            || self.stage() == LoadStage::Finished || self.stage() == LoadStage::Failed
        &&& if self.stage() == LoadStage::Failed {
            &&& self.log().len() > 0
            &&& self.log().last() is Error
            &&& exists|stage: LoadStage, done: nat|
                stage != LoadStage::Finished && stage != LoadStage::Failed
                    && self.log().drop_last() == #[trigger] course(
                    stage,
                    self.origin(),
                    self.total(),
                    done,
                    false,
                )
        } else {
            self.log() == course(
                self.stage(),
                self.origin(),
                self.total(),
                self.done(),
                self.bounded(),
            )
        }
    }

    /// The start of a load from a file, with its first message.
    pub fn start_file<S, B>() -> (r: (LoadRun, LoadMessage<S, B>))
        ensures
            r.0.valid(),
            r.0.stage() == LoadStage::Reading,
            r.0.origin() == LoadOrigin::File,
            r.0.log() == seq![log_entry(r.1)],
    {
        let ghost log = seq![LogEntry::Phase(LoadPhase::Reading)];
        let run = LoadRun {
            stage: LoadStage::Reading,
            total: 0,
            done: 0,
            origin: LoadOrigin::File,
            bounded: false,
            log: Ghost(log),
        };
        (run, LoadMessage::Phase(LoadPhase::Reading))
    }

    /// The start of a load from a text, which has no message yet.
    pub fn start_text() -> (r: LoadRun)
        ensures
            r.valid(),
            r.stage() == LoadStage::Reading,
            r.origin() == LoadOrigin::Text,
            r.log() == Seq::<LogEntry>::empty(),
    {
        LoadRun {
            stage: LoadStage::Reading,
            total: 0,
            done: 0,
            origin: LoadOrigin::Text,
            bounded: false,
            log: Ghost(Seq::empty()),
        }
    }

    /// The start of tessellating shells anew, with its first messages. Without
    /// shells it fails.
    pub fn start_retessellation<S, B>(total: usize) -> (r: (LoadRun, Vec<LoadMessage<S, B>>))
        ensures
            r.0.valid(),
            r.0.origin() == LoadOrigin::Shells,
            r.0.total() == total,
            r.0.done() == 0,
            r.0.stage() == (if total == 0 {
                LoadStage::Failed
            } else {
                LoadStage::Meshing
            }),
            log_of(r.1@) == seq![
                LogEntry::TotalShells(total as nat),
                if total == 0 {
                    LogEntry::Error(no_shells_text())
                } else {
                    LogEntry::Phase(LoadPhase::Meshing)
                },
            ],
            r.0.log() == log_of(r.1@),
    {
        let mut messages: Vec<LoadMessage<S, B>> = Vec::new();
        messages.push(LoadMessage::TotalShells(total));
        let stage = if total == 0 {
            let mut text = String::new();
            text.append("No shells found in STEP file");
            assert(text@ =~= no_shells_text());
            messages.push(LoadMessage::Error(text));
            LoadStage::Failed
        } else {
            messages.push(LoadMessage::Phase(LoadPhase::Meshing));
            LoadStage::Meshing
        };
        let run = LoadRun {
            stage,
            total,
            done: 0,
            origin: LoadOrigin::Shells,
            bounded: false,
            log: Ghost(log_of(messages@)),
        };
        proof {
            let first = seq![LogEntry::TotalShells(total as nat)];
            if total == 0 {
                assert(run.log() =~= first + seq![LogEntry::Error(no_shells_text())]);
                assert(run.log().drop_last() =~= first);
                assert(first =~= course(
                    LoadStage::Preparing,
                    run.origin(),
                    run.total(),
                    0,
                    false,
                ));
                assert(run.log().last() is Error);
            } else {
                assert(run.log() =~= first + seq![LogEntry::Phase(LoadPhase::Meshing)]);
                assert(run.log() =~= course(
                    run.stage(),
                    run.origin(),
                    run.total(),
                    run.done(),
                    run.bounded(),
                ));
            }
        }
        (run, messages)
    }

    /// The text is there.
    pub fn text_read<S, B>(&mut self) -> (r: LoadMessage<S, B>)
        requires
            old(self).valid(),
            old(self).stage() == LoadStage::Reading,
        ensures
            final(self).valid(),
            final(self).stage() == LoadStage::Parsing,
            final(self).origin() == old(self).origin(),
            r == LoadMessage::<S, B>::Phase(LoadPhase::Parsing),
            final(self).log() == old(self).log().push(log_entry(r)),
    {
        self.stage = LoadStage::Parsing;
        self.log = Ghost(self.log@.push(LogEntry::Phase(LoadPhase::Parsing)));
        assert(self.log@ =~= course(
            LoadStage::Parsing,
            self.origin,
            self.total as nat,
            self.done as nat,
            self.bounded,
        ));
        LoadMessage::Phase(LoadPhase::Parsing)
    }

    /// The load cannot go on.
    pub fn fail<S, B>(&mut self, text: String) -> (r: LoadMessage<S, B>)
        requires
            old(self).valid(),
            old(self).stage() != LoadStage::Finished,
            old(self).stage() != LoadStage::Failed,
        ensures
            final(self).valid(),
            final(self).stage() == LoadStage::Failed,
            final(self).origin() == old(self).origin(),
            final(self).total() == old(self).total(),
            r == LoadMessage::<S, B>::Error(text),
            final(self).log() == old(self).log().push(log_entry(r)),
    {
        let ghost stage = self.stage;
        let ghost done = self.done as nat;
        self.stage = LoadStage::Failed;
        self.log = Ghost(self.log@.push(LogEntry::Error(text@)));
        assert(self.log().drop_last() =~= course(
            stage,
            self.origin(),
            self.total(),
            done,
            false,
        ));
        LoadMessage::Error(text)
    }

    /// The header and the number of shells are known.
    pub fn opened<S, B>(&mut self, metadata: StepMetadata, total: usize) -> (r: Vec<
        LoadMessage<S, B>,
    >)
        requires
            old(self).valid(),
            old(self).stage() == LoadStage::Parsing,
        ensures
            final(self).valid(),
            final(self).stage() == LoadStage::Preparing,
            final(self).origin() == old(self).origin(),
            final(self).total() == total,
            final(self).done() == 0,
            r@ == seq![
                LoadMessage::<S, B>::Metadata(metadata),
                LoadMessage::<S, B>::Phase(LoadPhase::Preparing),
                LoadMessage::<S, B>::TotalShells(total),
            ],
            final(self).log() == old(self).log() + log_of(r@),
    {
        let ghost before = self.log@;
        let mut messages: Vec<LoadMessage<S, B>> = Vec::new();
        messages.push(LoadMessage::Metadata(metadata));
        messages.push(LoadMessage::Phase(LoadPhase::Preparing));
        messages.push(LoadMessage::TotalShells(total));
        self.stage = LoadStage::Preparing;
        self.total = total;
        self.done = 0;
        self.log = Ghost(before + log_of(messages@));
        proof {
            assert(log_of(messages@) =~= seq![
                LogEntry::Metadata,
                LogEntry::Phase(LoadPhase::Preparing),
                LogEntry::TotalShells(total as nat),
            ]);
            assert(self.log() =~= course(
                self.stage(),
                self.origin(),
                self.total(),
                self.done(),
                self.bounded(),
            ));
        }
        messages
    }

    /// One more shell is done in the current phase.
    pub fn one_more<S, B>(&mut self) -> (r: LoadMessage<S, B>)
        requires
            old(self).valid(),
            old(self).stage() == LoadStage::Preparing || old(self).stage() == LoadStage::Meshing,
            old(self).done() < old(self).total(),
        ensures
            final(self).valid(),
            final(self).stage() == old(self).stage(),
            final(self).origin() == old(self).origin(),
            final(self).total() == old(self).total(),
            final(self).done() == old(self).done() + 1,
            log_entry(r) == LogEntry::Progress(
                if old(self).stage() == LoadStage::Preparing {
                    LoadPhase::Preparing
                } else {
                    LoadPhase::Meshing
                },
                old(self).done() + 1,
                old(self).total(),
            ),
            final(self).log() == old(self).log().push(log_entry(r)),
    {
        let phase = if self.stage == LoadStage::Preparing {
            LoadPhase::Preparing
        } else {
            LoadPhase::Meshing
        };
        self.done = self.done + 1;
        let ghost entry = LogEntry::Progress(phase, self.done as nat, self.total as nat);
        self.log = Ghost(self.log@.push(entry));
        proof {
            assert(counted(phase, self.done(), self.total()) =~= counted(
                phase,
                (self.done() - 1) as nat,
                self.total(),
            ).push(entry));
            assert(self.log() =~= course(
                self.stage(),
                self.origin(),
                self.total(),
                self.done(),
                self.bounded(),
            ));
        }
        LoadMessage::Progress { phase, current: self.done, total: self.total }
    }

    /// All shells are prepared. Without shells the load fails.
    pub fn all_prepared<S, B>(&mut self) -> (r: LoadMessage<S, B>)
        requires
            old(self).valid(),
            old(self).stage() == LoadStage::Preparing,
            old(self).done() == old(self).total(),
        ensures
            final(self).valid(),
            final(self).origin() == old(self).origin(),
            final(self).total() == old(self).total(),
            if old(self).total() == 0 {
                final(self).stage() == LoadStage::Failed && log_entry(r) == LogEntry::Error(
                    no_shells_text(),
                )
            } else {
                final(self).stage() == LoadStage::Meshing && final(self).done() == 0 && r
                    == LoadMessage::<S, B>::Phase(LoadPhase::Meshing)
            },
            final(self).log() == old(self).log().push(log_entry(r)),
    {
        if self.total == 0 {
            let mut text = String::new();
            text.append("No shells found in STEP file");
            assert(text@ =~= no_shells_text());
            self.fail(text)
        } else {
            self.stage = LoadStage::Meshing;
            self.done = 0;
            self.log = Ghost(self.log@.push(LogEntry::Phase(LoadPhase::Meshing)));
            assert(self.log() =~= course(
                self.stage(),
                self.origin(),
                self.total(),
                self.done(),
                self.bounded(),
            ));
            LoadMessage::Phase(LoadPhase::Meshing)
        }
    }

    /// All shells are tessellated: the bounds, if there are any, the shells
    /// in their order, and the end.
    pub fn all_meshed<S, B>(&mut self, bounds: Option<B>, shells: Vec<S>) -> (r: Vec<
        LoadMessage<S, B>,
    >)
        requires
            old(self).valid(),
            old(self).stage() == LoadStage::Meshing,
            old(self).done() == old(self).total(),
            shells@.len() == old(self).total(),
        ensures
            final(self).valid(),
            final(self).stage() == LoadStage::Finished,
            final(self).origin() == old(self).origin(),
            final(self).total() == old(self).total(),
            final(self).bounded() == (bounds is Some),
            r@ == (match bounds {
                Some(b) => seq![LoadMessage::<S, B>::Bounds(b)],
                None => Seq::empty(),
            }) + shells@.map_values(|s: S| LoadMessage::<S, B>::Shell(s)) + seq![
                LoadMessage::<S, B>::Done,
            ],
            final(self).log() == old(self).log() + log_of(r@),
    {
        let ghost before = self.log@;
        let ghost given = shells@;
        let mut messages: Vec<LoadMessage<S, B>> = Vec::new();
        let ghost bounded = bounds is Some;
        match bounds {
            Some(b) => {
                self.bounded = true;
                messages.push(LoadMessage::Bounds(b));
            },
            None => {
                self.bounded = false;
            },
        }
        let ghost head = messages@;
        let mut rest = reversed(shells);
        while rest.len() > 0
            invariant
                rest@.len() <= given.len(),
                forall|k: int|
                    0 <= k < rest@.len() ==> #[trigger] rest@[k] == given[given.len() - 1
                        - k],
                messages@ == head + given.take(given.len() - rest@.len()).map_values(
                    |s: S| LoadMessage::<S, B>::Shell(s),
                ),
            decreases rest.len(),
        {
            let ghost n = given.len() - rest@.len();
            match rest.pop() {
                Some(s) => {
                    assert(s == given[n]);
                    messages.push(LoadMessage::Shell(s));
                    assert(given.take(n + 1).map_values(|s: S| LoadMessage::<S, B>::Shell(s))
                        =~= given.take(n).map_values(|s: S| LoadMessage::<S, B>::Shell(s)).push(
                        LoadMessage::Shell(s),
                    ));
                },
                None => {},
            }
        }
        messages.push(LoadMessage::Done);
        self.stage = LoadStage::Finished;
        self.log = Ghost(before + log_of(messages@));
        proof {
            assert(given.take(given.len() as int) =~= given);
            let marks = Seq::new(self.total(), |i: int| LogEntry::Shell);
            let first: Seq<LogEntry> = if bounded {
                seq![LogEntry::Bounds]
            } else {
                Seq::empty()
            };
            assert(log_of(messages@) =~= first + marks + seq![LogEntry::Done]);
            assert(self.log() =~= course(
                self.stage(),
                self.origin(),
                self.total(),
                self.done(),
                self.bounded(),
            ));
        }
        messages
    }
}

proof fn lemma_course_goes_on(
    stage: LoadStage,
    origin: LoadOrigin,
    total: nat,
    done: nat,
    bounded: bool,
)
    ensures
        ({
            let log = course(stage, origin, total, done, bounded);
            let finished = stage == LoadStage::Finished || stage == LoadStage::Failed;
            &&& forall|i: int|
                0 <= i < log.len() - (if finished {
                    1int
                } else {
                    0
                }) ==> !ends(#[trigger] log[i])
            &&& finished ==> log.len() > 0 && log.last() is Done
        }),
{
}

/// A load ends once: no message before the last one ends it, and the last one
/// does if and only if the load has finished or failed.
pub proof fn law_load_ends_once(run: LoadRun)
    requires
        run.valid(),
    ensures
        forall|i: int| 0 <= i < run.log().len() - 1 ==> !ends(#[trigger] run.log()[i]),
        (run.log().len() > 0 && ends(run.log().last())) <==> (run.stage() == LoadStage::Finished
            || run.stage() == LoadStage::Failed),
{
    if run.stage() == LoadStage::Failed {
        let (stage, done) = choose|stage: LoadStage, done: nat|
            stage != LoadStage::Finished && stage != LoadStage::Failed && run.log().drop_last()
                == #[trigger] course(stage, run.origin(), run.total(), done, false);
        lemma_course_goes_on(stage, run.origin(), run.total(), done, false);
        let head = course(stage, run.origin(), run.total(), done, false);
        assert forall|i: int| 0 <= i < run.log().len() - 1 implies !ends(
            #[trigger] run.log()[i],
        ) by {
            assert(run.log()[i] == head[i]);
        }
    } else {
        lemma_course_goes_on(
            run.stage(),
            run.origin(),
            run.total(),
            run.done(),
            run.bounded(),
        );
    }
}

pub open spec fn shells_in(log: Seq<LogEntry>) -> nat
    decreases log.len(),
{
    if log.len() == 0 {
        0
    } else {
        shells_in(log.drop_last()) + (if log.last() is Shell {
            1nat
        } else {
            0
        })
    }
}

proof fn lemma_no_shells(log: Seq<LogEntry>)
    requires
        forall|i: int| 0 <= i < log.len() ==> !((#[trigger] log[i]) is Shell),
    ensures
        shells_in(log) == 0,
    decreases log.len(),
{
    if log.len() > 0 {
        lemma_no_shells(log.drop_last());
    }
}

proof fn lemma_shell_tail(head: Seq<LogEntry>, n: nat)
    ensures
        shells_in(head + Seq::new(n, |i: int| LogEntry::Shell)) == shells_in(head) + n,
    decreases n,
{
    let all = head + Seq::new(n, |i: int| LogEntry::Shell);
    if n == 0 {
        assert(all =~= head);
    } else {
        let fewer = (n - 1) as nat;
        lemma_shell_tail(head, fewer);
        assert(all.drop_last() =~= head + Seq::new(fewer, |i: int| LogEntry::Shell));
    }
}

/// A load that has finished has sent as many shells as it has announced, and
/// one that has not finished has sent none.
pub proof fn law_all_shells_are_sent(run: LoadRun)
    requires
        run.valid(),
    ensures
        shells_in(run.log()) == (if run.stage() == LoadStage::Finished {
            run.total()
        } else {
            0
        }),
{
    if run.stage() == LoadStage::Finished {
        let log = run.log();
        let init = log.drop_last();
        let n = run.total();
        let tail = Seq::new(n, |i: int| LogEntry::Shell);
        let head = init.take(init.len() - n);
        assert(init =~= head + tail);
        lemma_no_shells(head);
        lemma_shell_tail(head, n);
        assert(log.last() is Done);
    } else {
        if run.stage() == LoadStage::Failed {
            let head = run.log().drop_last();
            assert forall|i: int| 0 <= i < run.log().len() implies !(
            (#[trigger] run.log()[i]) is Shell) by {
                if i < head.len() {
                    assert(run.log()[i] == head[i]);
                }
            }
        }
        lemma_no_shells(run.log());
    }
}

} // verus!
