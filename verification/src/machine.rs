//! The life of one build, as a machine: from each state, what happened decides
//! what is to be done next.

use crate::engine::{
    cleanup_of, published_text, JobTmpFiles, Workspace, EXIT_REUSED, RETRY_SECS,
};
use crate::filestamp::{FileStamp, StampModel};
use crate::hash::{blake3_digest, ContentHash};
use crate::job::JobSpec;
use crate::local_path::abs_text;
use crate::text::{chars_of, push_str, string_of, views};
use crate::trace::{line_text, LineModel, TraceFileLine};
use crate::tracefile::{lock_path, temp_path};
use vstd::prelude::*;
use vstd::string::*;

verus! {

/// How a build ended.
#[derive(Clone, Copy, Debug, PartialEq, Eq, Structural)]
pub enum Outcome {
    /// An earlier run was restored from the store; the rule did not run.
    Restored,
    /// The rule ran, and its output and its trace were committed.
    Built,
    /// The rule found its output up to date and wrote none.
    Reused,
    /// The rule succeeded but wrote no output.
    NoOutput,
    /// The rule failed.
    JobFailed,
    /// Something else went wrong.
    Failed,
}

/// Where a build stands.
#[derive(Clone, Copy, Debug, PartialEq, Eq, Structural)]
pub enum BuildState {
    /// Nothing has been asked for yet.
    Idle,
    /// Asked whether an earlier run can be restored.
    Restoring,
    /// Asked for the lock: the exclusive creation of the trace file.
    Locking,
    /// Another run holds the lock; waiting to ask again.
    Waiting,
    /// The lock is held and the rule is running.
    Running,
    /// Asked to move the output to the target.
    Moving,
    /// Asked for the bytes of the target.
    Stamping,
    /// Asked to store the target and to append the `produced` line.
    Recording,
    /// Asked for the bytes of the trace file.
    Naming,
    /// Asked to move the trace file to the traces, under its hash.
    Publishing,
    /// Asked to remove the files of the run.
    Cleaning(Outcome),
    /// The build is over.
    Done(Outcome),
}

/// What the rule's process did, and what it left behind.
#[derive(Clone, Copy, Debug, PartialEq, Eq, Structural)]
pub struct Exit {
    /// The exit code, if the process ended by exiting.
    pub code: Option<i32>,
    /// Is there a file where the rule was to write its output?
    pub output_exists: bool,
    /// Is there a file at the target?
    pub target_exists: bool,
}

/// What follows from the end of the rule's process.
#[derive(Clone, Copy, Debug, PartialEq, Eq, Structural)]
pub enum Verdict {
    /// The rule succeeded and wrote its output: commit.
    Commit,
    /// The rule left early because the target is up to date.
    Reuse,
    /// The rule succeeded but wrote no output.
    NoOutput,
    /// The rule failed.
    JobFailed,
}

/// What follows from the end of the rule's process. Exit code 0 asks for the
/// commit, which needs the output; the code for "up to date" is believed only
/// if the target is there; everything else is a failure.
pub open spec fn verdict_of(exit: Exit) -> Verdict {
    if exit.code == Some(0i32) {
        if exit.output_exists {
            Verdict::Commit
        } else {
            Verdict::NoOutput
        }
    } else if exit.code == Some(EXIT_REUSED) && exit.target_exists {
        Verdict::Reuse
    } else {
        Verdict::JobFailed
    }
}

/// Judges the end of the rule's process.
pub fn actually_run(exit: Exit) -> (v: Verdict)
    ensures
        v == verdict_of(exit),
{
    match exit.code {
        Some(code) => {
            if code == 0 {
                if exit.output_exists {
                    Verdict::Commit
                } else {
                    Verdict::NoOutput
                }
            } else if code == EXIT_REUSED && exit.target_exists {
                Verdict::Reuse
            } else {
                Verdict::JobFailed
            }
        },
        None => Verdict::JobFailed,
    }
}

/// What happened since the last step.
pub enum EventModel {
    Begin,
    Restored(bool),
    LockCreated,
    LockTaken,
    Woke,
    Exited(Exit),
    Moved,
    TargetRead(Seq<u8>),
    Recorded,
    TraceRead(Seq<u8>),
    Published,
    Cleaned,
    Failed,
}

/// What happened since the last step.
#[derive(Debug, PartialEq, Eq)]
pub enum BuildEvent {
    /// The build is to begin.
    Begin,
    /// The attempt to restore is over; `true` if the target was restored.
    Restored(bool),
    /// The trace file was created: the lock is held.
    LockCreated,
    /// The trace file exists already: another run holds the lock.
    LockTaken,
    /// The wait is over.
    Woke,
    /// The rule's process ended.
    Exited(Exit),
    /// The output was moved to the target.
    Moved,
    /// The target was read: these are its bytes.
    TargetRead(Vec<u8>),
    /// The target is in the store and the `produced` line is written.
    Recorded,
    /// The trace file was read: these are its bytes.
    TraceRead(Vec<u8>),
    /// The trace file was moved to the traces.
    Published,
    /// The files of the run were removed.
    Cleaned,
    /// What was asked for could not be done.
    Failed,
}

impl View for BuildEvent {
    type V = EventModel;

    open spec fn view(&self) -> EventModel {
        match self {
            BuildEvent::Begin => EventModel::Begin,
            BuildEvent::Restored(b) => EventModel::Restored(*b),
            BuildEvent::LockCreated => EventModel::LockCreated,
            BuildEvent::LockTaken => EventModel::LockTaken,
            BuildEvent::Woke => EventModel::Woke,
            BuildEvent::Exited(x) => EventModel::Exited(*x),
            BuildEvent::Moved => EventModel::Moved,
            BuildEvent::TargetRead(bytes) => EventModel::TargetRead(bytes@),
            BuildEvent::Recorded => EventModel::Recorded,
            BuildEvent::TraceRead(bytes) => EventModel::TraceRead(bytes@),
            BuildEvent::Published => EventModel::Published,
            BuildEvent::Cleaned => EventModel::Cleaned,
            BuildEvent::Failed => EventModel::Failed,
        }
    }
}

/// What is to be done next.
pub enum ActionModel {
    TryRestore,
    CreateLock { path: Seq<char>, header: Seq<char> },
    Sleep { secs: u64 },
    RunRule,
    MoveOutput { from: Seq<char>, to: Seq<char> },
    ReadTarget { path: Seq<char> },
    Record { stamp: StampModel, path: Seq<char>, text: Seq<char> },
    ReadTrace { path: Seq<char> },
    Publish { from: Seq<char>, to: Seq<char> },
    Cleanup { files: Seq<Seq<char>> },
    Finish(Outcome),
}

/// What is to be done next.
#[derive(Debug, PartialEq, Eq)]
pub enum BuildAction {
    /// Load the graph, look at the files, and try to restore the target.
    TryRestore,
    /// Create the trace file exclusively and write the header to it.
    CreateLock { path: String, header: String },
    /// Wait.
    Sleep { secs: u64 },
    /// Run the rule and wait for it to end.
    RunRule,
    /// Move the output to the target.
    MoveOutput { from: String, to: String },
    /// Read the target and hand in its bytes.
    ReadTarget { path: String },
    /// Take the target into the store, then append the text to the trace
    /// file.
    Record { stamp: FileStamp, path: String, text: String },
    /// Read the trace file and hand in its bytes.
    ReadTrace { path: String },
    /// Move the trace file to the traces.
    Publish { from: String, to: String },
    /// Remove these files, in this order: the output, if there is one, and
    /// then the trace file.
    Cleanup { files: Vec<String> },
    /// Nothing is left to do.
    Finish(Outcome),
}

impl View for BuildAction {
    type V = ActionModel;

    open spec fn view(&self) -> ActionModel {
        match self {
            BuildAction::TryRestore => ActionModel::TryRestore,
            BuildAction::CreateLock { path, header } => ActionModel::CreateLock {
                path: path@,
                header: header@,
            },
            BuildAction::Sleep { secs } => ActionModel::Sleep { secs: *secs },
            BuildAction::RunRule => ActionModel::RunRule,
            BuildAction::MoveOutput { from, to } => ActionModel::MoveOutput { from: from@, to: to@ },
            BuildAction::ReadTarget { path } => ActionModel::ReadTarget { path: path@ },
            BuildAction::Record { stamp, path, text } => ActionModel::Record {
                stamp: stamp@,
                path: path@,
                text: text@,
            },
            BuildAction::ReadTrace { path } => ActionModel::ReadTrace { path: path@ },
            BuildAction::Publish { from, to } => ActionModel::Publish { from: from@, to: to@ },
            BuildAction::Cleanup { files } => ActionModel::Cleanup { files: views(files@) },
            BuildAction::Finish(o) => ActionModel::Finish(*o),
        }
    }
}

/// What a build works with: the places of its files.
pub struct PlanModel {
    pub force: bool,
    pub target_path: Seq<Seq<char>>,
    pub lock: Seq<char>,
    pub out: Seq<char>,
    pub target: Seq<char>,
    pub header: Seq<char>,
    pub traces_dir: Seq<char>,
    pub committed: bool,
}

/// What a build works with: the job, whether restoring is switched off, and
/// the places of its files.
#[derive(Debug, PartialEq, Eq)]
pub struct BuildPlan {
    pub job: JobSpec,
    pub force: bool,
    pub files: JobTmpFiles,
    pub header: String,
    pub target: String,
    pub traces_dir: String,
}

impl View for BuildPlan {
    type V = PlanModel;

    open spec fn view(&self) -> PlanModel {
        PlanModel {
            force: self.force,
            target_path: self.job.target@,
            lock: self.files.trace.path@,
            out: self.files.out@,
            target: self.target@,
            header: self.header@,
            traces_dir: self.traces_dir@,
            committed: self.files.committed,
        }
    }
}

/// Does the run hold the lock in this state?
pub open spec fn holds_lock(s: BuildState) -> bool {
    s == BuildState::Running || s == BuildState::Moving || s == BuildState::Stamping || s
        == BuildState::Recording || s == BuildState::Naming || s == BuildState::Publishing
}

/// Giving up: with the lock held the files of the run are removed first.
pub open spec fn give_up(p: PlanModel, s: BuildState, o: Outcome) -> (BuildState, ActionModel) {
    if holds_lock(s) {
        (
            BuildState::Cleaning(o),
            ActionModel::Cleanup { files: cleanup_of(p.out, p.lock, p.committed) },
        )
    } else {
        (BuildState::Done(o), ActionModel::Finish(o))
    }
}

/// The plan after a step: publishing the trace commits the files of the run.
pub open spec fn after_step(p: PlanModel, s: BuildState, e: EventModel) -> PlanModel {
    PlanModel { committed: p.committed || (s == BuildState::Publishing && e is Published), ..p }
}

/// Asking for the lock.
pub open spec fn ask_lock(p: PlanModel) -> (BuildState, ActionModel) {
    (BuildState::Locking, ActionModel::CreateLock { path: p.lock, header: p.header })
}

/// The stamp of the target, given the bytes that were read from it.
pub open spec fn stamp_of_target(p: PlanModel, bytes: Seq<u8>) -> StampModel {
    StampModel { path: p.target_path, hash: blake3_digest(bytes) }
}

/// The whole machine: the state and the action that follow from a state and
/// an event.
pub open spec fn step_of(p: PlanModel, s: BuildState, e: EventModel) -> (BuildState, ActionModel) {
    match (s, e) {
        (BuildState::Done(o), _) => (BuildState::Done(o), ActionModel::Finish(o)),
        (BuildState::Cleaning(o), _) => (BuildState::Done(o), ActionModel::Finish(o)),
        (BuildState::Idle, EventModel::Begin) | (BuildState::Waiting, EventModel::Woke) => if p.force {
            ask_lock(p)
        } else {
            (BuildState::Restoring, ActionModel::TryRestore)
        },
        (BuildState::Restoring, EventModel::Restored(true)) => (
            BuildState::Done(Outcome::Restored),
            ActionModel::Finish(Outcome::Restored),
        ),
        (BuildState::Restoring, EventModel::Restored(false)) => ask_lock(p),
        (BuildState::Locking, EventModel::LockCreated) => (BuildState::Running, ActionModel::RunRule),
        (BuildState::Locking, EventModel::LockTaken) => (
            BuildState::Waiting,
            ActionModel::Sleep { secs: RETRY_SECS },
        ),
        (BuildState::Running, EventModel::Exited(exit)) => match verdict_of(exit) {
            Verdict::Commit => (
                BuildState::Moving,
                ActionModel::MoveOutput { from: p.out, to: p.target },
            ),
            Verdict::Reuse => give_up(p, s, Outcome::Reused),
            Verdict::NoOutput => give_up(p, s, Outcome::NoOutput),
            Verdict::JobFailed => give_up(p, s, Outcome::JobFailed),
        },
        (BuildState::Moving, EventModel::Moved) => (
            BuildState::Stamping,
            ActionModel::ReadTarget { path: p.target },
        ),
        (BuildState::Stamping, EventModel::TargetRead(bytes)) => (
            BuildState::Recording,
            ActionModel::Record {
                stamp: stamp_of_target(p, bytes),
                path: p.lock,
                text: line_text(LineModel::Produced(stamp_of_target(p, bytes))) + seq!['\n'],
            },
        ),
        (BuildState::Recording, EventModel::Recorded) => (
            BuildState::Naming,
            ActionModel::ReadTrace { path: p.lock },
        ),
        (BuildState::Naming, EventModel::TraceRead(bytes)) => (
            BuildState::Publishing,
            ActionModel::Publish {
                from: p.lock,
                to: published_text(p.traces_dir, blake3_digest(bytes)),
            },
        ),
        (BuildState::Publishing, EventModel::Published) => (
            BuildState::Done(Outcome::Built),
            ActionModel::Finish(Outcome::Built),
        ),
        _ => give_up(p, s, Outcome::Failed),
    }
}

/// The rule runs only when the lock has just been created: of two builds of
/// one target, the one that finds the trace file does not run the rule.
pub proof fn lemma_rule_runs_under_lock(p: PlanModel, s: BuildState, e: EventModel)
    requires
        step_of(p, s, e).1 is RunRule,
    ensures
        s == BuildState::Locking,
        e is LockCreated,
        holds_lock(step_of(p, s, e).0),
{
}

/// A run that holds the lock lets go of it in two ways only: by publishing its
/// trace, which ends the build as built, or by removing its output and then
/// its trace file. A build that has been cleaned up ends as it was given up,
/// never as built.
pub proof fn lemma_lock_is_released_cleanly(p: PlanModel, s: BuildState, e: EventModel)
    requires
        holds_lock(s),
        !holds_lock(step_of(p, s, e).0),
    ensures
        (s == BuildState::Publishing && e is Published && step_of(p, s, e).0 == BuildState::Done(
            Outcome::Built,
        )) || (exists|o: Outcome|
            o != Outcome::Built && o != Outcome::Restored && step_of(p, s, e) == (
                BuildState::Cleaning(o),
                ActionModel::Cleanup { files: cleanup_of(p.out, p.lock, p.committed) },
            )),
{
    let next = step_of(p, s, e);
    if !(s == BuildState::Publishing && e is Published) {
        let o = next.0->Cleaning_0;
        assert(next == (
            BuildState::Cleaning(o),
            ActionModel::Cleanup { files: cleanup_of(p.out, p.lock, p.committed) },
        ));
    }
}

/// After the cleaning the build is over, with the outcome it was given up for.
pub proof fn lemma_cleaning_ends(p: PlanModel, o: Outcome, e: EventModel)
    ensures
        step_of(p, BuildState::Cleaning(o), e) == (BuildState::Done(o), ActionModel::Finish(o)),
{
}

/// No step leads to a cleaning that would end as built or restored. So a build
/// ends as built only by publishing. A trace file is published only under the
/// hexadecimal form of the hash of the bytes that were read from it; and the
/// `produced` line that is written carries the hash of the bytes that were
/// read from the target.
pub proof fn lemma_built_means_published(p: PlanModel, s: BuildState, e: EventModel)
    ensures
        step_of(p, s, e).0 matches BuildState::Cleaning(o) ==> o != Outcome::Built && o
            != Outcome::Restored,
        step_of(p, s, e).0 == BuildState::Done(Outcome::Built) && s != BuildState::Done(
            Outcome::Built,
        ) && s != BuildState::Cleaning(Outcome::Built) ==> s == BuildState::Publishing && e
            is Published,
        step_of(p, s, e).1 matches ActionModel::Publish { from, to } ==> (e
            matches EventModel::TraceRead(bytes) && s == BuildState::Naming && from == p.lock
            && to == published_text(p.traces_dir, blake3_digest(bytes))),
        step_of(p, s, e).1 matches ActionModel::Record { stamp, path, text } ==> (e
            matches EventModel::TargetRead(bytes) && stamp == stamp_of_target(p, bytes) && s
            == BuildState::Stamping && path == p.lock && text == line_text(
            LineModel::Produced(stamp),
        ) + seq!['\n']),
{
}

/// Where a build stands after the events, one after the other from the
/// beginning, what it asked for on the way, and what has become of its plan.
pub open spec fn run_of(p: PlanModel, events: Seq<EventModel>) -> (
    BuildState,
    Seq<ActionModel>,
    PlanModel,
)
    decreases events.len(),
{
    if events.len() == 0 {
        (BuildState::Idle, Seq::empty(), p)
    } else {
        let before = run_of(p, events.drop_last());
        let step = step_of(before.2, before.0, events.last());
        (step.0, before.1.push(step.1), after_step(before.2, before.0, events.last()))
    }
}

/// Was the rule run?
pub open spec fn ran(acts: Seq<ActionModel>) -> bool {
    exists|i: int| 0 <= i < acts.len() && (#[trigger] acts[i]) is RunRule
}

/// Were the files of the run removed: the output and the trace file?
pub open spec fn cleaned(p: PlanModel, acts: Seq<ActionModel>) -> bool {
    exists|i: int|
        0 <= i < acts.len() && (#[trigger] acts[i]) == (ActionModel::Cleanup {
            files: seq![p.out, p.lock],
        })
}

/// Does the action store the target under the hash of bytes that were read
/// from it, and write the `produced` line with that hash to the trace file?
pub open spec fn is_record(p: PlanModel, a: ActionModel) -> bool {
    a matches ActionModel::Record { stamp, path, text } && path == p.lock && text == line_text(
        LineModel::Produced(stamp),
    ) + seq!['\n'] && exists|bytes: Seq<u8>| stamp == #[trigger] stamp_of_target(p, bytes)
}

/// Was the output stored and recorded in the trace file?
pub open spec fn recorded(p: PlanModel, acts: Seq<ActionModel>) -> bool {
    exists|i: int| 0 <= i < acts.len() && is_record(p, #[trigger] acts[i])
}

/// Does the action move the trace file to the traces, under the hexadecimal
/// form of the hash of bytes that were read from it?
pub open spec fn is_publish(p: PlanModel, a: ActionModel) -> bool {
    a matches ActionModel::Publish { from, to } && from == p.lock && exists|bytes: Seq<u8>|
        to == published_text(p.traces_dir, #[trigger] blake3_digest(bytes))
}

/// Was the trace published?
pub open spec fn published(p: PlanModel, acts: Seq<ActionModel>) -> bool {
    exists|i: int| 0 <= i < acts.len() && is_publish(p, #[trigger] acts[i])
}

/// What is true of every build, whatever happens: what it has asked for goes
/// with where it stands, and its files are committed exactly when it has
/// ended as built.
pub open spec fn orderly(p: PlanModel, s: BuildState, acts: Seq<ActionModel>, now: PlanModel) -> bool {
    &&& now == PlanModel { committed: s == BuildState::Done(Outcome::Built), ..p }
    &&& in_step(p, s, acts)
}

/// What a build has asked for goes with where it stands.
pub open spec fn in_step(p: PlanModel, s: BuildState, acts: Seq<ActionModel>) -> bool {
    match s {
        BuildState::Idle | BuildState::Restoring | BuildState::Locking | BuildState::Waiting => !ran(
            acts,
        ) && !cleaned(p, acts),
        BuildState::Running | BuildState::Moving | BuildState::Stamping => ran(acts) && !cleaned(
            p,
            acts,
        ),
        BuildState::Recording | BuildState::Naming => ran(acts) && recorded(p, acts) && !cleaned(
            p,
            acts,
        ),
        BuildState::Publishing | BuildState::Done(Outcome::Built) => ran(acts) && recorded(p, acts)
            && published(p, acts) && !cleaned(p, acts),
        BuildState::Cleaning(o) => ran(acts) && cleaned(p, acts) && o != Outcome::Built && o
            != Outcome::Restored,
        BuildState::Done(Outcome::Restored) => !ran(acts) && !cleaned(p, acts),
        BuildState::Done(Outcome::Failed) => ran(acts) ==> cleaned(p, acts),
        BuildState::Done(_) => ran(acts) && cleaned(p, acts),
    }
}

/// What one more action adds to what was asked for.
proof fn lemma_push_actions(p: PlanModel, acts: Seq<ActionModel>, a: ActionModel)
    ensures
        ran(acts.push(a)) == (ran(acts) || a is RunRule),
        cleaned(p, acts.push(a)) == (cleaned(p, acts) || a == (ActionModel::Cleanup {
            files: seq![p.out, p.lock],
        })),
        recorded(p, acts.push(a)) == (recorded(p, acts) || is_record(p, a)),
        published(p, acts.push(a)) == (published(p, acts) || is_publish(p, a)),
{
    let more = acts.push(a);
    let n = acts.len() as int;
    assert(more[n] == a);
    assert forall|i: int| 0 <= i < n implies more[i] == acts[i] by {}
    if ran(acts) {
        let i = choose|i: int| 0 <= i < acts.len() && (#[trigger] acts[i]) is RunRule;
        assert(more[i] is RunRule);
    }
    if ran(more) {
        let i = choose|i: int| 0 <= i < more.len() && (#[trigger] more[i]) is RunRule;
        if i < n {
            assert(acts[i] is RunRule);
        }
    }
    let sweep = ActionModel::Cleanup { files: seq![p.out, p.lock] };
    if cleaned(p, acts) {
        let i = choose|i: int| 0 <= i < acts.len() && (#[trigger] acts[i]) == sweep;
        assert(more[i] == sweep);
    }
    if cleaned(p, more) {
        let i = choose|i: int| 0 <= i < more.len() && (#[trigger] more[i]) == sweep;
        if i < n {
            assert(acts[i] == sweep);
        }
    }
    if recorded(p, acts) {
        let i = choose|i: int| 0 <= i < acts.len() && is_record(p, #[trigger] acts[i]);
        assert(is_record(p, more[i]));
    }
    if recorded(p, more) {
        let i = choose|i: int| 0 <= i < more.len() && is_record(p, #[trigger] more[i]);
        if i < n {
            assert(is_record(p, acts[i]));
        }
    }
    if published(p, acts) {
        let i = choose|i: int| 0 <= i < acts.len() && is_publish(p, #[trigger] acts[i]);
        assert(is_publish(p, more[i]));
    }
    if published(p, more) {
        let i = choose|i: int| 0 <= i < more.len() && is_publish(p, #[trigger] more[i]);
        if i < n {
            assert(is_publish(p, acts[i]));
        }
    }
}

/// Every build whose files are not committed at the outset is orderly,
/// whatever the events.
pub proof fn lemma_every_run_is_orderly(p: PlanModel, events: Seq<EventModel>)
    requires
        !p.committed,
    ensures
        orderly(p, run_of(p, events).0, run_of(p, events).1, run_of(p, events).2),
    decreases events.len(),
{
    if events.len() == 0 {
        let none = Seq::<ActionModel>::empty();
        assert(!ran(none));
        assert(!cleaned(p, none));
    } else {
        lemma_every_run_is_orderly(p, events.drop_last());
        let before = run_of(p, events.drop_last());
        let step = step_of(before.2, before.0, events.last());
        lemma_push_actions(p, before.1, step.1);
        match (before.0, events.last()) {
            (BuildState::Naming, EventModel::TraceRead(bytes)) => {
                assert(step.1 == (ActionModel::Publish {
                    from: p.lock,
                    to: published_text(p.traces_dir, blake3_digest(bytes)),
                }));
                assert(is_publish(p, step.1));
            },
            (BuildState::Stamping, EventModel::TargetRead(bytes)) => {
                assert(step.1->Record_stamp == stamp_of_target(p, bytes));
                assert(is_record(p, step.1));
            },
            _ => {},
        }
    }
}

/// A build that has ended and has run the rule, but has not ended as built,
/// has removed the output and then the trace file of the run: nothing of it
/// is left beside the target.
pub proof fn lemma_failed_run_leaves_nothing(p: PlanModel, events: Seq<EventModel>)
    requires
        !p.committed,
        run_of(p, events).0 is Done,
        run_of(p, events).0 != BuildState::Done(Outcome::Built),
        ran(run_of(p, events).1),
    ensures
        cleaned(p, run_of(p, events).1),
{
    lemma_every_run_is_orderly(p, events);
}

/// A build that has ended as built has run the rule, has stored the output and
/// written its `produced` line to the trace file, both under the hash of the
/// bytes read from the target, and has published the trace file under the
/// hexadecimal form of the hash of the bytes read from it; its files are
/// committed, and it has removed nothing.
pub proof fn lemma_built_run_is_recorded(p: PlanModel, events: Seq<EventModel>)
    requires
        !p.committed,
        run_of(p, events).0 == BuildState::Done(Outcome::Built),
    ensures
        run_of(p, events).2.committed,
        ran(run_of(p, events).1),
        recorded(p, run_of(p, events).1),
        published(p, run_of(p, events).1),
        !cleaned(p, run_of(p, events).1),
{
    lemma_every_run_is_orderly(p, events);
}

/// A build that has ended as restored has not run the rule.
pub proof fn lemma_restored_run_did_not_run(p: PlanModel, events: Seq<EventModel>)
    requires
        !p.committed,
        run_of(p, events).0 == BuildState::Done(Outcome::Restored),
    ensures
        !ran(run_of(p, events).1),
{
    lemma_every_run_is_orderly(p, events);
}

/// Can anything still happen in this state?
pub fn is_over(state: &BuildState) -> (r: bool)
    ensures
        r == (*state is Done),
{
    match state {
        BuildState::Done(_) => true,
        _ => false,
    }
}

impl BuildPlan {
    /// The plan of a build of `job` in the workspace. `rule_contents` is what
    /// the rule's file holds; `force` switches restoring off. `None` when the
    /// target has no name.
    pub fn new(job: JobSpec, force: bool, ws: &Workspace, rule_contents: &[u8]) -> (r: Option<
        BuildPlan,
    >)
        ensures
            job@.target.len() == 0 ==> r is None,
            job@.target.len() > 0 ==> (r matches Some(plan) && plan.job@ == job@ && plan.force
                == force && plan.files.trace.job@ == job@ && !plan.files.committed && plan@
                == PlanModel {
                force,
                target_path: job@.target,
                lock: lock_path(ws.root@, job@.target),
                out: temp_path(ws.root@, job@.target),
                target: abs_text(ws.root@, job@.target),
                committed: false,
                header: crate::tracefile::header_text(
                    job@,
                    StampModel {
                        path: job@.rule,
                        hash: blake3_digest(rule_contents@),
                    },
                ),
                traces_dir: crate::engine::traces_text(ws.redux@),
            }),
    {
        let root = crate::engine::project_base(ws);
        match JobTmpFiles::create(&job, root, rule_contents) {
            Some(p) => {
                let target = job.abs_target(root);
                Some(
                    BuildPlan {
                        job,
                        force,
                        files: p.0,
                        header: p.1,
                        target,
                        traces_dir: ws.traces_dir(),
                    },
                )
            },
            None => None,
        }
    }

    /// Gives the build up: with the lock held, the files of the run go first.
    fn give_up(&self, state: BuildState, outcome: Outcome) -> (r: (BuildState, BuildAction))
        ensures
            r.1@ == give_up(self@, state, outcome).1,
            r.0 == give_up(self@, state, outcome).0,
    {
        let locked = match state {
            BuildState::Running => true,
            BuildState::Moving => true,
            BuildState::Stamping => true,
            BuildState::Recording => true,
            BuildState::Naming => true,
            BuildState::Publishing => true,
            _ => false,
        };
        if locked {
            (BuildState::Cleaning(outcome), BuildAction::Cleanup { files: self.files.cleanup() })
        } else {
            (BuildState::Done(outcome), BuildAction::Finish(outcome))
        }
    }

    /// Asks for the lock.
    fn ask_lock(&self) -> (r: (BuildState, BuildAction))
        ensures
            r.1@ == ask_lock(self@).1,
            r.0 == ask_lock(self@).0,
    {
        (
            BuildState::Locking,
            BuildAction::CreateLock {
                path: self.files.trace.path.clone(),
                header: self.header.clone(),
            },
        )
    }

    /// The text of the `produced` line for the stamp, closed by a line break.
    fn produced_text(stamp: &FileStamp) -> (s: String)
        ensures
            s@ == line_text(LineModel::Produced(stamp@)) + seq!['\n'],
    {
        let mut out = TraceFileLine::Produced(stamp.clone()).to_chars();
        out.push('\n');
        string_of(&out)
    }

    /// Where the trace with the given hash is published.
    fn published(&self, hash: &ContentHash) -> (s: String)
        ensures
            s@ == published_text(self.traces_dir@, hash@),
    {
        let mut out = chars_of(self.traces_dir.as_str());
        out.push('/');
        push_str(&mut out, hash.to_hex().as_str());
        push_str(&mut out, ".trace");
        string_of(&out)
    }
}

/// One step of the build of a target: given where the build stands and what
/// happened, says where it stands now and what is to be done. The build
/// begins in `Idle` with `Begin`; it is over in `Done`. The step that ends
/// the build as built marks the files of the run as committed.
pub fn build(plan: &mut BuildPlan, state: BuildState, event: BuildEvent) -> (r: (
    BuildState,
    BuildAction,
))
    ensures
        r.0 == step_of(old(plan)@, state, event@).0,
        r.1@ == step_of(old(plan)@, state, event@).1,
        final(plan)@ == after_step(old(plan)@, state, event@),
        final(plan).job == old(plan).job,
        final(plan).files.trace == old(plan).files.trace,
{
    match state {
        BuildState::Done(o) => (BuildState::Done(o), BuildAction::Finish(o)),
        BuildState::Cleaning(o) => (BuildState::Done(o), BuildAction::Finish(o)),
        BuildState::Idle => match event {
            BuildEvent::Begin => if plan.force {
                plan.ask_lock()
            } else {
                (BuildState::Restoring, BuildAction::TryRestore)
            },
            _ => plan.give_up(state, Outcome::Failed),
        },
        BuildState::Waiting => match event {
            BuildEvent::Woke => if plan.force {
                plan.ask_lock()
            } else {
                (BuildState::Restoring, BuildAction::TryRestore)
            },
            _ => plan.give_up(state, Outcome::Failed),
        },
        BuildState::Restoring => match event {
            BuildEvent::Restored(true) => (
                BuildState::Done(Outcome::Restored),
                BuildAction::Finish(Outcome::Restored),
            ),
            BuildEvent::Restored(false) => plan.ask_lock(),
            _ => plan.give_up(state, Outcome::Failed),
        },
        BuildState::Locking => match event {
            BuildEvent::LockCreated => (BuildState::Running, BuildAction::RunRule),
            BuildEvent::LockTaken => (BuildState::Waiting, BuildAction::Sleep { secs: RETRY_SECS }),
            _ => plan.give_up(state, Outcome::Failed),
        },
        BuildState::Running => match event {
            BuildEvent::Exited(exit) => match actually_run(exit) {
                Verdict::Commit => (
                    BuildState::Moving,
                    BuildAction::MoveOutput {
                        from: plan.files.out.clone(),
                        to: plan.target.clone(),
                    },
                ),
                Verdict::Reuse => plan.give_up(state, Outcome::Reused),
                Verdict::NoOutput => plan.give_up(state, Outcome::NoOutput),
                Verdict::JobFailed => plan.give_up(state, Outcome::JobFailed),
            },
            _ => plan.give_up(state, Outcome::Failed),
        },
        BuildState::Moving => match event {
            BuildEvent::Moved => (
                BuildState::Stamping,
                BuildAction::ReadTarget { path: plan.target.clone() },
            ),
            _ => plan.give_up(state, Outcome::Failed),
        },
        BuildState::Stamping => match event {
            BuildEvent::TargetRead(bytes) => {
                let stamp = FileStamp::new(plan.job.target.clone(), bytes.as_slice());
                let text = BuildPlan::produced_text(&stamp);
                (
                    BuildState::Recording,
                    BuildAction::Record { stamp, path: plan.files.trace.path.clone(), text },
                )
            },
            _ => plan.give_up(state, Outcome::Failed),
        },
        BuildState::Recording => match event {
            BuildEvent::Recorded => (
                BuildState::Naming,
                BuildAction::ReadTrace { path: plan.files.trace.path.clone() },
            ),
            _ => plan.give_up(state, Outcome::Failed),
        },
        BuildState::Naming => match event {
            BuildEvent::TraceRead(bytes) => (
                BuildState::Publishing,
                BuildAction::Publish {
                    from: plan.files.trace.path.clone(),
                    to: plan.published(&ContentHash::of(bytes.as_slice())),
                },
            ),
            _ => plan.give_up(state, Outcome::Failed),
        },
        BuildState::Publishing => match event {
            BuildEvent::Published => {
                plan.files.commit();
                (BuildState::Done(Outcome::Built), BuildAction::Finish(Outcome::Built))
            },
            _ => plan.give_up(state, Outcome::Failed),
        },
    }
}

} // verus!
