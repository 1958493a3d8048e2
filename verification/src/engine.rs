//! The build engine: what is to be done for one target, step by step. The
//! engine decides; whoever drives it reads and writes the files, runs the rule
//! and reports back what happened.

use crate::artifacts::{copy_out, Artifacts, CopyModel, FileCopy};
use crate::build_id::{uuid_text, BuildId};
use crate::depgraph::{
    all_outputs, contains_stamp, holds, usable, valid_tree, witnesses, BuildTree, DepGraph,
    GraphModel, ObsModel, Observation, TreeModel,
};
use crate::filestamp::all_hold;
use crate::timestamp::earlier;
use crate::trace::TraceModel;
use crate::filestamp::{FileStamp, StampModel};
use crate::hash::{blake3_digest, hex_text, ContentHash};
use crate::job::{job_extension, relative_target, JobModel, JobSpec};
use crate::local_path::{abs_text, LocalPath};
use crate::text::{chars_of, push_str, string_of, views};
use crate::timestamp::{nanos_of, writable, Span, Timestamp, END_OF_TIME};
use crate::trace::{LineModel, TraceFileLine};
use crate::tracefile::{beside, header_text, lock_path, temp_path, TraceFile};
use vstd::prelude::*;
use vstd::string::*;

verus! {

/// The variable that tells a rule where its trace file is.
pub const ENV_VAR_TRACEFILE: &'static str = "REDUX_TRACEFILE";

/// The variable that carries the id of the running build.
pub const ENV_VAR_BUILD_ID: &'static str = "REDUX_BUILD_ID";

/// The variable that switches restoring off.
pub const ENV_VAR_FORCE: &'static str = "REDUX_FORCE";

/// The exit code of a rule that found its output up to date and wrote nothing.
pub const EXIT_REUSED: i32 = 102;

/// How long to wait before asking again for a lock that another run holds.
pub const RETRY_SECS: u64 = 1;

/// The directories of a workspace.
#[derive(Debug, PartialEq, Eq)]
pub struct Workspace {
    pub root: String,
    pub redux: String,
}

/// The engine's directory below the directory of the repository's metadata.
pub open spec fn redux_text(git_dir: Seq<char>) -> Seq<char> {
    git_dir + "/redux"@
}

/// The directory of the artifact store.
pub open spec fn artifacts_text(redux: Seq<char>) -> Seq<char> {
    redux + "/artifacts"@
}

/// The directory of the committed traces.
pub open spec fn traces_text(redux: Seq<char>) -> Seq<char> {
    redux + "/traces"@
}

/// The name under which a trace with the given hash is published.
pub open spec fn published_text(traces_dir: Seq<char>, hash: Seq<u8>) -> Seq<char> {
    traces_dir + seq!['/'] + hex_text(hash) + ".trace"@
}

impl Workspace {
    /// The workspace with the given root, whose repository keeps its metadata
    /// in `git_dir`.
    pub fn new(root: String, git_dir: &str) -> (ws: Workspace)
        ensures
            ws.root@ == root@,
            ws.redux@ == redux_text(git_dir@),
    {
        let mut redux = chars_of(git_dir);
        push_str(&mut redux, "/redux");
        Workspace { root, redux: string_of(&redux) }
    }

    /// The directory of the artifact store.
    pub fn artifacts_dir(&self) -> (s: String)
        ensures
            s@ == artifacts_text(self.redux@),
    {
        let mut out = chars_of(self.redux.as_str());
        push_str(&mut out, "/artifacts");
        string_of(&out)
    }

    /// The directory of the committed traces.
    pub fn traces_dir(&self) -> (s: String)
        ensures
            s@ == traces_text(self.redux@),
    {
        let mut out = chars_of(self.redux.as_str());
        push_str(&mut out, "/traces");
        string_of(&out)
    }

    /// Where a trace with the given hash is published.
    pub fn published_path(&self, hash: &ContentHash) -> (s: String)
        ensures
            s@ == published_text(traces_text(self.redux@), hash@),
    {
        let mut out = chars_of(self.traces_dir().as_str());
        out.push('/');
        push_str(&mut out, hash.to_hex().as_str());
        push_str(&mut out, ".trace");
        string_of(&out)
    }
}

/// The root of the workspace.
pub fn project_base(ws: &Workspace) -> (s: &str)
    ensures
        s@ == ws.root@,
{
    ws.root.as_str()
}

/// The engine's own directory.
pub fn redux_dir(ws: &Workspace) -> (s: &str)
    ensures
        s@ == ws.redux@,
{
    ws.redux.as_str()
}

/// The two files that a run keeps beside its target until it commits: the
/// trace file, which is also the lock, and the file the rule writes to.
#[derive(Debug, PartialEq, Eq)]
pub struct JobTmpFiles {
    pub trace: TraceFile,
    pub out: String,
    pub committed: bool,
}

/// The files to remove when a run is given up: the output first, then the
/// trace file, which is the lock. Nothing once the run is committed.
pub open spec fn cleanup_of(out: Seq<char>, trace: Seq<char>, committed: bool) -> Seq<Seq<char>> {
    if committed {
        Seq::empty()
    } else {
        seq![out, trace]
    }
}

impl JobTmpFiles {
    /// The files of a new run of `job`, with the text that the trace file
    /// starts with. The trace file must then be created exclusively. `None`
    /// when the target has no name.
    pub fn create(job: &JobSpec, root: &str, rule_contents: &[u8]) -> (r: Option<
        (JobTmpFiles, String),
    >)
        ensures
            job@.target.len() == 0 ==> r is None,
            job@.target.len() > 0 ==> (r matches Some(p) && p.0.trace.job@ == job@
                && p.0.trace.path@ == lock_path(root@, job@.target) && p.0.out@ == temp_path(
                root@,
                job@.target,
            ) && !p.0.committed && p.1@ == header_text(
                job@,
                StampModel { path: job@.rule, hash: blake3_digest(rule_contents@) },
            )),
    {
        match TraceFile::create(job.clone(), root, rule_contents) {
            Some(p) => {
                proof {
                    reveal_strlit(".redux_");
                    reveal_strlit(".tmp");
                }
                let out = beside(&job.target, ".redux_", ".tmp").to_abs(root);
                Some((JobTmpFiles { trace: p.0, out, committed: false }, p.1))
            },
            None => None,
        }
    }

    /// Marks the run as committed: from now on its files are left alone.
    pub fn commit(&mut self)
        ensures
            final(self).committed,
            final(self).trace == old(self).trace,
            final(self).out == old(self).out,
    {
        self.committed = true;
    }

    /// The files to remove when the run ends: the output first, then the
    /// trace file; none if the run is committed.
    pub fn cleanup(&self) -> (r: Vec<String>)
        ensures
            views(r@) == cleanup_of(self.out@, self.trace.path@, self.committed),
    {
        let mut r: Vec<String> = Vec::new();
        if !self.committed {
            r.push(self.out.clone());
            r.push(self.trace.path.clone());
        }
        assert(views(r@) =~= cleanup_of(self.out@, self.trace.path@, self.committed));
        r
    }
}

/// How a rule is to be run.
#[derive(Debug, PartialEq, Eq)]
pub struct Invocation {
    pub program: String,
    pub dir: String,
    pub args: Vec<String>,
    pub env: Vec<(String, String)>,
}

/// How a rule is to be run, in texts.
pub struct InvocationModel {
    pub program: Seq<char>,
    pub dir: Seq<char>,
    pub args: Seq<Seq<char>>,
    pub env: Seq<(Seq<char>, Seq<char>)>,
}

impl View for Invocation {
    type V = InvocationModel;

    open spec fn view(&self) -> InvocationModel {
        InvocationModel {
            program: self.program@,
            dir: self.dir@,
            args: views(self.args@),
            env: crate::job::env_view(self.env@),
        }
    }
}

/// The target as the rule sees it, without the rule's extension.
pub open spec fn target_stem(job: JobModel) -> Seq<char> {
    relative_target(job).take(relative_target(job).len() - job_extension(job).len())
}

/// Can the rule of the job be run for its target: the rule has a name, and the
/// target ends in the extension that the rule stands for?
pub open spec fn runnable(job: JobModel) -> bool {
    job.rule.len() > 0 && job_extension(job).is_suffix_of(relative_target(job))
}

/// The way to run the rule of a job: in the rule's directory, with the target,
/// the target without the extension, and the file to write to as arguments,
/// and with the trace file and the build id in the environment.
pub open spec fn invocation_of(
    job: JobModel,
    root: Seq<char>,
    out: Seq<char>,
    trace: Seq<char>,
    id: BuildId,
) -> InvocationModel {
    InvocationModel {
        program: abs_text(root, job.rule),
        dir: abs_text(root, job.rule.drop_last()),
        args: seq![relative_target(job), target_stem(job), out],
        env: seq![(ENV_VAR_TRACEFILE@, trace), (ENV_VAR_BUILD_ID@, uuid_text(id.0))],
    }
}

/// The way to run the rule of the job whose files are `tmp`, or `None` when
/// the rule cannot be run for the target.
pub fn invocation(tmp: &JobTmpFiles, root: &str, id: &BuildId) -> (r: Option<Invocation>)
    ensures
        runnable(tmp.trace.job@) ==> (r matches Some(inv) && inv@ == invocation_of(
            tmp.trace.job@,
            root@,
            tmp.out@,
            tmp.trace.path@,
            *id,
        )),
        !runnable(tmp.trace.job@) ==> r is None,
{
    let job = &tmp.trace.job;
    if job.rule.depth() == 0 {
        return None;
    }
    let stem = match job.target_minus_extension() {
        Some(s) => s,
        None => {
            return None;
        },
    };
    let mut args: Vec<String> = Vec::new();
    args.push(job.target_relative_to_rule());
    args.push(stem);
    args.push(tmp.out.clone());
    let mut env: Vec<(String, String)> = Vec::new();
    env.push((string_of(&chars_of(ENV_VAR_TRACEFILE)), tmp.trace.path.clone()));
    env.push((string_of(&chars_of(ENV_VAR_BUILD_ID)), id.to_string()));
    let inv = Invocation {
        program: job.rule.to_abs(root),
        dir: job.rule.parent().to_abs(root),
        args,
        env,
    };
    proof {
        let want = invocation_of(job@, root@, tmp.out@, tmp.trace.path@, *id);
        assert(inv@.args =~= want.args);
        assert(inv@.env =~= want.env);
    }
    Some(inv)
}

/// Where a file comes from.
#[derive(Clone, Copy, Debug, PartialEq, Eq, Structural)]
pub enum Origin {
    /// The file is under version control: a source.
    CheckedIn,
    /// There is no such file yet: it has to be generated.
    Missing,
    /// A recorded run produced the file as it is.
    Generated,
    /// Nothing is known of the file: it is taken for a source, with a warning.
    Assumed,
}

/// Where a file comes from, given whether version control tracks it, its stamp
/// if it exists, and the outputs of all recorded runs.
pub open spec fn origin_of(checked_in: bool, stamp: Option<StampModel>, outputs: Seq<StampModel>) -> Origin {
    if checked_in {
        Origin::CheckedIn
    } else {
        match stamp {
            None => Origin::Missing,
            Some(s) => if outputs.contains(s) {
                Origin::Generated
            } else {
                Origin::Assumed
            },
        }
    }
}

/// The view of an optional stamp.
pub open spec fn stamp_of(stamp: Option<&FileStamp>) -> Option<StampModel> {
    match stamp {
        Some(s) => Some(s@),
        None => None,
    }
}

/// Where a file comes from. `checked_in` says whether version control has the
/// path; `stamp` is the stamp of the file as it is, if it exists; `graph`
/// holds every recorded trace.
pub fn origin(checked_in: bool, stamp: Option<&FileStamp>, graph: &DepGraph) -> (r: Origin)
    ensures
        r == origin_of(checked_in, stamp_of(stamp), all_outputs(graph@)),
{
    if checked_in {
        return Origin::CheckedIn;
    }
    match stamp {
        None => Origin::Missing,
        Some(s) => {
            let outputs = graph.outputs();
            if contains_stamp(&outputs, s) {
                Origin::Generated
            } else {
                Origin::Assumed
            }
        },
    }
}

/// Is the file a source: checked in, or taken for one because no recorded run
/// produced it?
pub fn is_source(checked_in: bool, stamp: Option<&FileStamp>, graph: &DepGraph) -> (r: bool)
    ensures
        r == (origin_of(checked_in, stamp_of(stamp), all_outputs(graph@)) == Origin::CheckedIn
            || origin_of(checked_in, stamp_of(stamp), all_outputs(graph@)) == Origin::Assumed),
{
    match origin(checked_in, stamp, graph) {
        Origin::CheckedIn => true,
        Origin::Assumed => true,
        _ => false,
    }
}

/// The line that records a dependency that was brought up to date: `source`
/// for a source, `generated` for any other file.
pub fn declared_line(is_source: bool, stamp: FileStamp) -> (line: TraceFileLine)
    ensures
        line@ == if is_source {
            LineModel::Source(stamp@)
        } else {
            LineModel::Generated(stamp@)
        },
{
    if is_source {
        TraceFileLine::Source(stamp)
    } else {
        TraceFileLine::Generated(stamp)
    }
}

/// The line that marks an output as usable for some time from `now` on, if
/// the end of that time can be written.
pub fn volatile_line(now: &Timestamp, span: &Span) -> (r: Option<TraceFileLine>)
    ensures
        r matches Some(line) ==> (line@ matches LineModel::ValidUntil(t) && writable(t)
            && nanos_of(t.secs, t.nanos) == nanos_of(now.secs, now.nanos) + nanos_of(
            span.secs,
            span.nanos,
        )),
        r is None ==> nanos_of(now.secs, now.nanos) + nanos_of(span.secs, span.nanos) >= nanos_of(
            END_OF_TIME,
            0,
        ),
{
    match now.after(span) {
        Some(t) => Some(TraceFileLine::ValidUntil(t)),
        None => None,
    }
}

/// Why an earlier run could not be restored although the graph holds one.
#[derive(Clone, Copy, Debug, PartialEq, Eq, Structural)]
pub enum RestoreError {
    /// The run that was found has no output at the job's target.
    NoOutput,
    /// The store does not have the output of the run that was found.
    NotInStore,
}

/// The position of the first stamp at or after `from` whose path is `path`, or
/// the number of stamps when there is none.
pub open spec fn position_from(outputs: Seq<StampModel>, path: Seq<Seq<char>>, from: int) -> int
    decreases outputs.len() - from,
{
    if from < 0 || from >= outputs.len() {
        outputs.len() as int
    } else if outputs[from].path == path {
        from
    } else {
        position_from(outputs, path, from + 1)
    }
}

/// What restoring comes to once a run that can be used again is found: the
/// copy that brings back its first output at the job's target, if the run has
/// one and the store has it.
pub open spec fn restore_of(
    tree: TreeModel,
    job: JobModel,
    store: Set<Seq<u8>>,
    root: Seq<char>,
    dir: Seq<char>,
) -> Result<CopyModel, RestoreError> {
    let i = position_from(tree.outputs, job.target, 0);
    if !(0 <= i < tree.outputs.len()) {
        Err(RestoreError::NoOutput)
    } else if !store.contains(tree.outputs[i].hash) {
        Err(RestoreError::NotInStore)
    } else {
        Ok(copy_out(root, dir, tree.outputs[i]))
    }
}

/// The position of the first stamp whose path is `path`.
pub fn output_at(outputs: &Vec<FileStamp>, path: &LocalPath) -> (r: Option<usize>)
    ensures
        r matches Some(i) ==> i < outputs@.len() && i == position_from(views(outputs@), path@, 0),
        r is None ==> position_from(views(outputs@), path@, 0) == outputs@.len(),
{
    let mut i: usize = 0;
    while i < outputs.len()
        invariant
            i <= outputs.len(),
            position_from(views(outputs@), path@, 0) == position_from(
                views(outputs@),
                path@,
                i as int,
            ),
        decreases outputs.len() - i,
    {
        assert(views(outputs@)[i as int] == outputs@[i as int]@);
        if outputs[i].path.same(path) {
            return Some(i);
        }
        i += 1;
    }
    None
}

/// Brings the output of a run that can be used again back from the store: the
/// copy to make, or why there is none.
pub fn restore_from(
    tree: &BuildTree,
    job: &JobSpec,
    store: &Artifacts,
    root: &str,
    store_dir: &str,
) -> (r: Result<FileCopy, RestoreError>)
    ensures
        r matches Ok(c) ==> restore_of(tree@, job@, store@, root@, store_dir@) == Ok::<
            CopyModel,
            RestoreError,
        >(c@),
        r matches Err(e) ==> restore_of(tree@, job@, store@, root@, store_dir@) == Err::<
            CopyModel,
            RestoreError,
        >(e),
{
    let i = match output_at(&tree.outputs, &job.target) {
        Some(i) => i,
        None => {
            return Err(RestoreError::NoOutput);
        },
    };
    let x = &tree.outputs[i];
    assert(tree@.outputs[i as int] == x@);
    if !store.contains(&x.hash) {
        return Err(RestoreError::NotInStore);
    }
    Ok(store.restore(x, root, store_dir))
}

/// What a call of `try_restore` came to, in texts.
pub open spec fn outcome_of(r: Result<Option<FileCopy>, RestoreError>) -> Result<
    Option<CopyModel>,
    RestoreError,
> {
    match r {
        Ok(Some(c)) => Ok(Some(c@)),
        Ok(None) => Ok(None),
        Err(e) => Err(e),
    }
}

/// What restoring may come to. Nothing is restored only when the graph holds
/// no run of the job that can be used again. Otherwise the outcome is that of
/// some such run: with several, any of them may be the one.
pub open spec fn restored(
    g: GraphModel,
    job: JobModel,
    obs: ObsModel,
    store: Set<Seq<u8>>,
    root: Seq<char>,
    dir: Seq<char>,
    r: Result<Option<CopyModel>, RestoreError>,
) -> bool {
    match r {
        Ok(None) => forall|t: TreeModel|
            t.job == job ==> !#[trigger] valid_tree(g, obs, t, Set::<JobModel>::empty()),
        Ok(Some(c)) => exists|t: TreeModel| #[trigger]
            valid_tree(g, obs, t, Set::<JobModel>::empty()) && t.job == job && restore_of(
                t,
                job,
                store,
                root,
                dir,
            ) == Ok::<CopyModel, RestoreError>(c),
        Err(e) => exists|t: TreeModel| #[trigger]
            valid_tree(g, obs, t, Set::<JobModel>::empty()) && t.job == job && restore_of(
                t,
                job,
                store,
                root,
                dir,
            ) == Err::<CopyModel, RestoreError>(e),
    }
}

/// A job whose only recorded run is usable, has no generated dependency and
/// has its output at the target in the store, is restored: the copy brings
/// that output back from the store to the target. No other outcome is
/// possible, however often it is asked.
pub proof fn lemma_usable_run_is_restored(
    g: GraphModel,
    job: JobModel,
    trace: TraceModel,
    obs: ObsModel,
    store: Set<Seq<u8>>,
    root: Seq<char>,
    dir: Seq<char>,
    r: Result<Option<CopyModel>, RestoreError>,
)
    requires
        holds(g, job, trace),
        forall|other: TraceModel| #[trigger] holds(g, job, other) ==> other == trace,
        usable(trace, obs),
        trace.intermediates.len() == 0,
        0 <= position_from(trace.outputs, job.target, 0) < trace.outputs.len(),
        store.contains(trace.outputs[position_from(trace.outputs, job.target, 0)].hash),
        restored(g, job, obs, store, root, dir, r),
    ensures
        r == Ok::<Option<CopyModel>, RestoreError>(
            Some(copy_out(root, dir, trace.outputs[position_from(trace.outputs, job.target, 0)])),
        ),
{
    let nobody = Set::<JobModel>::empty();
    let leaf = TreeModel {
        job,
        sources: trace.sources,
        intermediates: Seq::empty(),
        outputs: trace.outputs,
        valid_until: trace.valid_until,
    };
    assert(witnesses(g, obs, leaf, nobody, trace));
    assert(valid_tree(g, obs, leaf, nobody));
    assert forall|t: TreeModel| #[trigger] valid_tree(g, obs, t, nobody) && t.job == job implies
        t.outputs == trace.outputs by {
        let backing = choose|backing: TraceModel| #[trigger]
            holds(g, t.job, backing) && witnesses(g, obs, t, nobody, backing);
        assert(backing == trace);
    }
}

/// Within its horizon a run is restored: a job whose only recorded run is
/// valid until a time that has not passed, has unchanged sources, no generated
/// dependency, and its output at the target in the store.
pub proof fn lemma_restored_within_horizon(
    g: GraphModel,
    job: JobModel,
    trace: TraceModel,
    obs: ObsModel,
    store: Set<Seq<u8>>,
    root: Seq<char>,
    dir: Seq<char>,
    r: Result<Option<CopyModel>, RestoreError>,
)
    requires
        holds(g, job, trace),
        forall|other: TraceModel| #[trigger] holds(g, job, other) ==> other == trace,
        trace.valid_until matches Some(until) && !earlier(until, obs.now),
        trace.valid_for is None,
        all_hold(obs.files, trace.sources),
        trace.intermediates.len() == 0,
        0 <= position_from(trace.outputs, job.target, 0) < trace.outputs.len(),
        store.contains(trace.outputs[position_from(trace.outputs, job.target, 0)].hash),
        restored(g, job, obs, store, root, dir, r),
    ensures
        r == Ok::<Option<CopyModel>, RestoreError>(
            Some(copy_out(root, dir, trace.outputs[position_from(trace.outputs, job.target, 0)])),
        ),
{
    lemma_usable_run_is_restored(g, job, trace, obs, store, root, dir, r);
}

/// Within its build a run is restored: a job whose only recorded run is valid
/// for the build that is running, has unchanged sources, no generated
/// dependency, and its output at the target in the store.
pub proof fn lemma_restored_within_build(
    g: GraphModel,
    job: JobModel,
    trace: TraceModel,
    obs: ObsModel,
    store: Set<Seq<u8>>,
    root: Seq<char>,
    dir: Seq<char>,
    r: Result<Option<CopyModel>, RestoreError>,
)
    requires
        holds(g, job, trace),
        forall|other: TraceModel| #[trigger] holds(g, job, other) ==> other == trace,
        trace.valid_for matches Some(id) && obs.build_id == Some(id),
        trace.valid_until is None,
        all_hold(obs.files, trace.sources),
        trace.intermediates.len() == 0,
        0 <= position_from(trace.outputs, job.target, 0) < trace.outputs.len(),
        store.contains(trace.outputs[position_from(trace.outputs, job.target, 0)].hash),
        restored(g, job, obs, store, root, dir, r),
    ensures
        r == Ok::<Option<CopyModel>, RestoreError>(
            Some(copy_out(root, dir, trace.outputs[position_from(trace.outputs, job.target, 0)])),
        ),
{
    lemma_usable_run_is_restored(g, job, trace, obs, store, root, dir, r);
}

/// Seeks an earlier run of the job that can stand in for a new one. If there
/// is one, the copy returned brings its output back from the store; when that
/// copy is made, the target is up to date. `Ok(None)` means that there is no
/// such run: the rule has to run. With several such runs, any of them may be
/// the one that is restored.
pub fn try_restore(
    graph: &DepGraph,
    job: &JobSpec,
    obs: &Observation,
    store: &Artifacts,
    root: &str,
    store_dir: &str,
) -> (r: Result<Option<FileCopy>, RestoreError>)
    ensures
        restored(graph@, job@, obs@, store@, root@, store_dir@, outcome_of(r)),
{
    match graph.valid_trace_for(job, obs) {
        Some(tree) => match restore_from(&tree, job, store, root, store_dir) {
            Ok(c) => {
                assert(valid_tree(graph@, obs@, tree@, Set::<JobModel>::empty()));
                Ok(Some(c))
            },
            Err(e) => {
                assert(valid_tree(graph@, obs@, tree@, Set::<JobModel>::empty()));
                Err(e)
            },
        },
        None => Ok(None),
    }
}

} // verus!
