//! The dependency graph: every recorded trace by its job, and the check that a
//! recorded run can stand in for a new one.

use crate::build_id::BuildId;
use crate::error::ParseError;
use crate::filestamp::{all_hold, FileStamp, Snapshot, StampModel};
use crate::job::{JobModel, JobSpec};
use crate::ruleset::{chosen_job, RuleModel, RuleSet};
use crate::text::views;
use crate::timestamp::{earlier, Timestamp};
use crate::trace::{clone_stamps, Trace, TraceModel};
use crate::tracefile::{read_file, TraceFile};
use vstd::prelude::*;

verus! {

/// A recorded run that can stand in for a new one, with the runs that stand in
/// for its generated dependencies.
pub struct TreeModel {
    pub job: JobModel,
    pub sources: Seq<StampModel>,
    pub intermediates: Seq<(StampModel, TreeModel)>,
    pub outputs: Seq<StampModel>,
    pub valid_until: Option<Timestamp>,
}

/// The graph as a list: each job with its traces.
pub type GraphModel = Seq<(JobModel, Seq<TraceModel>)>;

/// Does the graph hold the trace under the job?
pub open spec fn holds(g: GraphModel, job: JobModel, trace: TraceModel) -> bool {
    exists|i: int, k: int| at(g, job, trace, i, k)
}

/// Is the trace the `k`-th of the `i`-th job, and that job the one given?
pub open spec fn at(g: GraphModel, job: JobModel, trace: TraceModel, i: int, k: int) -> bool {
    0 <= i < g.len() && 0 <= k < g[i].1.len() && g[i].0 == job && g[i].1[k] == trace
}

/// A recorded run with the proof that it can be used again: the runs that
/// produced its generated dependencies, checked in turn.
#[derive(Debug, PartialEq, Eq)]
pub struct BuildTree {
    pub job: JobSpec,
    pub sources: Vec<FileStamp>,
    pub intermediates: Vec<(FileStamp, BuildTree)>,
    pub outputs: Vec<FileStamp>,
    pub valid_until: Option<Timestamp>,
}

impl View for BuildTree {
    type V = TreeModel;

    open spec fn view(&self) -> TreeModel
        decreases self,
    {
        TreeModel {
            job: self.job@,
            sources: views(self.sources@),
            intermediates: Seq::new(
                self.intermediates@.len(),
                |i: int|
                    if 0 <= i < self.intermediates@.len() {
                        (self.intermediates@[i].0@, self.intermediates@[i].1.view())
                    } else {
                        arbitrary()
                    },
            ),
            outputs: views(self.outputs@),
            valid_until: self.valid_until,
        }
    }
}

/// The subtrees of a build tree, seen one by one.
pub proof fn lemma_tree_view(tree: BuildTree)
    ensures
        tree@.intermediates.len() == tree.intermediates@.len(),
        forall|k: int|
            0 <= k < tree.intermediates@.len() ==> (#[trigger] tree@.intermediates[k]) == (
                tree.intermediates@[k].0@,
                tree.intermediates@[k].1@,
            ),
{
    reveal_with_fuel(<BuildTree as View>::view, 2);
}

impl Clone for BuildTree {
    fn clone(&self) -> (r: Self)
        ensures
            r@ == self@,
        decreases self,
    {
        let mut parts: Vec<(FileStamp, BuildTree)> = Vec::new();
        let mut i: usize = 0;
        while i < self.intermediates.len()
            invariant
                i <= self.intermediates.len(),
                parts@.len() == i,
                forall|k: int|
                    0 <= k < i ==> (#[trigger] parts@[k]).0@ == self.intermediates@[k].0@
                        && parts@[k].1@ == self.intermediates@[k].1@,
            decreases self.intermediates.len() - i,
        {
            let stamp = self.intermediates[i].0.clone();
            let below = self.intermediates[i].1.clone();
            parts.push((stamp, below));
            i += 1;
        }
        let r = BuildTree {
            job: self.job.clone(),
            sources: clone_stamps(&self.sources),
            intermediates: parts,
            outputs: clone_stamps(&self.outputs),
            valid_until: self.valid_until,
        };
        proof {
            lemma_tree_view(*self);
            lemma_tree_view(r);
            assert(r@.intermediates =~= self@.intermediates);
        }
        r
    }
}

/// Every recorded trace, by the job it belongs to.
#[derive(Debug, PartialEq, Eq)]
pub struct DepGraph {
    pub traces: Vec<(JobSpec, Vec<Trace>)>,
}

impl Default for DepGraph {
    fn default() -> (g: Self)
        ensures
            g@ == Seq::<(JobModel, Seq<TraceModel>)>::empty(),
    {
        DepGraph::new()
    }
}

impl View for DepGraph {
    type V = GraphModel;

    open spec fn view(&self) -> GraphModel {
        Seq::new(self.traces@.len(), |i: int| (self.traces@[i].0@, views(self.traces@[i].1@)))
    }
}

/// What was observed when the question was asked: the time, the id that the
/// running build announces, and the files found.
pub struct ObsModel {
    pub now: Timestamp,
    pub build_id: Option<BuildId>,
    pub files: Seq<StampModel>,
}

/// What was observed when the question was asked.
#[derive(Debug, PartialEq, Eq)]
pub struct Observation {
    pub now: Timestamp,
    pub build_id: Option<BuildId>,
    pub files: Snapshot,
}

impl View for Observation {
    type V = ObsModel;

    open spec fn view(&self) -> ObsModel {
        ObsModel { now: self.now, build_id: self.build_id, files: self.files@ }
    }
}

/// Is the trace within its horizon: not past its `valid_until`, and of the
/// running build if it has a `valid_for`?
pub open spec fn fresh(t: TraceModel, obs: ObsModel) -> bool {
    &&& t.valid_until matches Some(u) ==> !earlier(u, obs.now)
    &&& t.valid_for matches Some(id) ==> obs.build_id == Some(id)
}

/// Can the trace be used as far as it alone can tell: it is fresh, and every
/// source still has the hash recorded?
pub open spec fn usable(t: TraceModel, obs: ObsModel) -> bool {
    fresh(t, obs) && all_hold(obs.files, t.sources)
}

/// Is the tree the record of this trace: same sources, outputs and horizon, and
/// one subtree for each generated dependency, in order?
pub open spec fn backs(t: TraceModel, tree: TreeModel) -> bool {
    &&& tree.sources == t.sources
    &&& tree.outputs == t.outputs
    &&& tree.valid_until == t.valid_until
    &&& tree.intermediates.len() == t.intermediates.len()
    &&& forall|k: int|
        0 <= k < tree.intermediates.len() ==> (#[trigger] tree.intermediates[k]).0
            == t.intermediates[k]
}

/// Is the tree a reason to use a recorded run again? Its job must not be among
/// the jobs that are being checked above it (`ancestors`), and some trace that
/// the graph holds under the job must bear it out.
pub open spec fn valid_tree(g: GraphModel, obs: ObsModel, tree: TreeModel, ancestors: Set<JobModel>) -> bool
    decreases tree, 1int,
{
    exists|trace: TraceModel| #[trigger]
        holds(g, tree.job, trace) && witnesses(g, obs, tree, ancestors, trace)
}

/// Does the trace bear the tree out? The job is not among the ancestors; the
/// tree is the record of the trace; the trace is usable; and for every
/// generated dependency the subtree is a valid tree of a run that produced it.
pub open spec fn witnesses(
    g: GraphModel,
    obs: ObsModel,
    tree: TreeModel,
    ancestors: Set<JobModel>,
    trace: TraceModel,
) -> bool
    decreases tree, 0int,
{
    &&& !ancestors.contains(tree.job)
    &&& backs(trace, tree)
    &&& usable(trace, obs)
    &&& forall|k: int|
        0 <= k < tree.intermediates.len() ==> {
            &&& (#[trigger] tree.intermediates[k]).1.outputs.contains(tree.intermediates[k].0)
            &&& valid_tree(g, obs, tree.intermediates[k].1, ancestors.insert(tree.job))
        }
}

/// Does the second graph hold every trace that the first holds?
pub open spec fn grows_to(g: GraphModel, bigger: GraphModel) -> bool {
    forall|job: JobModel, trace: TraceModel| #[trigger]
        holds(g, job, trace) ==> holds(bigger, job, trace)
}

/// A tree that is valid stays valid when the graph grows.
pub proof fn lemma_valid_tree_monotone(
    g: GraphModel,
    bigger: GraphModel,
    obs: ObsModel,
    tree: TreeModel,
    ancestors: Set<JobModel>,
)
    requires
        grows_to(g, bigger),
        valid_tree(g, obs, tree, ancestors),
    ensures
        valid_tree(bigger, obs, tree, ancestors),
    decreases tree,
{
    let trace = choose|trace: TraceModel| #[trigger]
        holds(g, tree.job, trace) && witnesses(g, obs, tree, ancestors, trace);
    assert(holds(bigger, tree.job, trace));
    assert forall|k: int| 0 <= k < tree.intermediates.len() implies valid_tree(
        bigger,
        obs,
        (#[trigger] tree.intermediates[k]).1,
        ancestors.insert(tree.job),
    ) by {
        lemma_valid_tree_monotone(
            g,
            bigger,
            obs,
            tree.intermediates[k].1,
            ancestors.insert(tree.job),
        );
    }
    assert(witnesses(bigger, obs, tree, ancestors, trace));
}

/// A trace past its `valid_until` bears out no tree.
pub proof fn lemma_expired_is_not_reusable(
    g: GraphModel,
    obs: ObsModel,
    tree: TreeModel,
    ancestors: Set<JobModel>,
    trace: TraceModel,
)
    requires
        trace.valid_until matches Some(u) && earlier(u, obs.now),
    ensures
        !witnesses(g, obs, tree, ancestors, trace),
{
}

/// A trace of another build than the running one bears out no tree.
pub proof fn lemma_other_build_is_not_reusable(
    g: GraphModel,
    obs: ObsModel,
    tree: TreeModel,
    ancestors: Set<JobModel>,
    trace: TraceModel,
)
    requires
        trace.valid_for matches Some(id) && obs.build_id != Some(id),
    ensures
        !witnesses(g, obs, tree, ancestors, trace),
{
}

/// How many marks are not set.
pub open spec fn free_count(marks: Seq<bool>) -> nat
    decreases marks.len(),
{
    if marks.len() == 0 {
        0
    } else {
        free_count(marks.drop_last()) + if marks.last() {
            0nat
        } else {
            1nat
        }
    }
}

/// Do the marks say which jobs of the graph are among the ancestors?
pub open spec fn marks_of(g: GraphModel, marks: Seq<bool>, ancestors: Set<JobModel>) -> bool {
    marks.len() == g.len() && forall|i: int|
        0 <= i < g.len() ==> marks[i] == ancestors.contains((#[trigger] g[i]).0)
}

/// Setting marks frees none.
proof fn lemma_free_count_le(a: Seq<bool>, b: Seq<bool>)
    requires
        a.len() == b.len(),
        forall|j: int| 0 <= j < a.len() ==> a[j] ==> b[j],
    ensures
        free_count(b) <= free_count(a),
    decreases a.len(),
{
    if a.len() > 0 {
        lemma_free_count_le(a.drop_last(), b.drop_last());
    }
}

/// Setting a mark that was not set leaves fewer free.
proof fn lemma_free_count_less(a: Seq<bool>, b: Seq<bool>, i: int)
    requires
        a.len() == b.len(),
        forall|j: int| 0 <= j < a.len() ==> a[j] ==> b[j],
        0 <= i < a.len(),
        !a[i],
        b[i],
    ensures
        free_count(b) < free_count(a),
    decreases a.len(),
{
    if i == a.len() - 1 {
        lemma_free_count_le(a.drop_last(), b.drop_last());
    } else {
        lemma_free_count_less(a.drop_last(), b.drop_last(), i);
    }
}

/// Is the stamp among the stamps?
pub fn contains_stamp(stamps: &Vec<FileStamp>, x: &FileStamp) -> (r: bool)
    ensures
        r == views(stamps@).contains(x@),
{
    let mut i: usize = 0;
    while i < stamps.len()
        invariant
            i <= stamps.len(),
            forall|j: int| 0 <= j < i ==> views(stamps@)[j] != x@,
        decreases stamps.len() - i,
    {
        if stamps[i].same(x) {
            assert(views(stamps@)[i as int] == x@);
            return true;
        }
        i += 1;
    }
    false
}

/// Can the trace be used as far as it alone can tell?
pub fn is_usable(trace: &Trace, obs: &Observation) -> (r: bool)
    ensures
        r == usable(trace@, obs@),
{
    let in_time = match trace.valid_until {
        Some(u) => !u.before(&obs.now),
        None => true,
    };
    let in_build = match trace.valid_for {
        Some(id) => match obs.build_id {
            Some(current) => current.0 == id.0,
            None => false,
        },
        None => true,
    };
    in_time && in_build && obs.files.confirms_all(&trace.sources)
}

impl DepGraph {
    /// The marks with those of every entry of `job` set as well.
    fn mark(&self, busy: &Vec<bool>, job: &JobSpec, Ghost(ancestors): Ghost<Set<JobModel>>) -> (r:
        Vec<bool>)
        requires
            marks_of(self@, busy@, ancestors),
        ensures
            marks_of(self@, r@, ancestors.insert(job@)),
            forall|j: int| 0 <= j < busy@.len() ==> busy@[j] ==> r@[j],
    {
        let mut r: Vec<bool> = Vec::new();
        let mut i: usize = 0;
        while i < self.traces.len()
            invariant
                i <= self.traces.len(),
                marks_of(self@, busy@, ancestors),
                r@.len() == i,
                forall|j: int|
                    0 <= j < i ==> r@[j] == ancestors.insert(job@).contains((#[trigger] self@[j]).0),
                forall|j: int| 0 <= j < i ==> busy@[j] ==> r@[j],
            decreases self.traces.len() - i,
        {
            let here = busy[i] || self.traces[i].0.same(job);
            assert(self@[i as int].0 == self.traces@[i as int].0@);
            r.push(here);
            i += 1;
        }
        r
    }

    /// The marks of a walk that has not begun: none is set.
    fn no_marks(&self) -> (r: Vec<bool>)
        ensures
            marks_of(self@, r@, Set::<JobModel>::empty()),
    {
        let mut r: Vec<bool> = Vec::new();
        let mut i: usize = 0;
        while i < self.traces.len()
            invariant
                i <= self.traces.len(),
                r@.len() == i,
                forall|j: int| 0 <= j < i ==> !r@[j],
            decreases self.traces.len() - i,
        {
            r.push(false);
            i += 1;
        }
        r
    }

    /// Builds the tree that the trace bears out, if there is one: a valid
    /// subtree is sought for each generated dependency. `busy` marks the job
    /// and its ancestors.
    fn assemble(
        &self,
        job: &JobSpec,
        trace: &Trace,
        obs: &Observation,
        busy: &Vec<bool>,
        Ghost(ancestors): Ghost<Set<JobModel>>,
    ) -> (r: Option<BuildTree>)
        requires
            marks_of(self@, busy@, ancestors.insert(job@)),
            !ancestors.contains(job@),
            usable(trace@, obs@),
        ensures
            r matches Some(tree) ==> witnesses(self@, obs@, tree@, ancestors, trace@) && tree@.job
                == job@,
            r is None ==> forall|t: TreeModel|
                t.job == job@ ==> !witnesses(self@, obs@, t, ancestors, trace@),
        decreases free_count(busy@), 2int,
    {
        let ghost below = ancestors.insert(job@);
        let mut parts: Vec<(FileStamp, BuildTree)> = Vec::new();
        let mut m: usize = 0;
        while m < trace.intermediates.len()
            invariant
                m <= trace.intermediates.len(),
                below == ancestors.insert(job@),
                marks_of(self@, busy@, below),
                parts@.len() == m,
                forall|k: int|
                    0 <= k < m ==> {
                        &&& (#[trigger] parts@[k]).0@ == trace@.intermediates[k]
                        &&& parts@[k].1@.outputs.contains(parts@[k].0@)
                        &&& valid_tree(self@, obs@, parts@[k].1@, below)
                    },
            decreases trace.intermediates.len() - m,
        {
            let x = &trace.intermediates[m];
            assert(x@ == trace@.intermediates[m as int]);
            match self.find_producer(x, obs, busy, Ghost(below)) {
                Some(w) => {
                    parts.push((x.clone(), w));
                },
                None => {
                    assert forall|t: TreeModel| t.job == job@ implies !witnesses(
                        self@,
                        obs@,
                        t,
                        ancestors,
                        trace@,
                    ) by {
                        if witnesses(self@, obs@, t, ancestors, trace@) {
                            let sub = t.intermediates[m as int];
                            assert(sub.0 == x@);
                            assert(valid_tree(self@, obs@, sub.1, below));
                        }
                    }
                    return None;
                },
            }
            m += 1;
        }
        let tree = BuildTree {
            job: job.clone(),
            sources: clone_stamps(&trace.sources),
            intermediates: parts,
            outputs: clone_stamps(&trace.outputs),
            valid_until: trace.valid_until,
        };
        proof {
            assert(tree@.intermediates.len() == trace@.intermediates.len());
            assert forall|k: int| 0 <= k < tree@.intermediates.len() implies {
                &&& (#[trigger] tree@.intermediates[k]).0 == trace@.intermediates[k]
                &&& tree@.intermediates[k].1.outputs.contains(tree@.intermediates[k].0)
                &&& valid_tree(self@, obs@, tree@.intermediates[k].1, below)
            } by {
                assert(tree@.intermediates[k] == (parts@[k].0@, parts@[k].1@));
            }
            assert(backs(trace@, tree@));
        }
        Some(tree)
    }

    /// Seeks a valid tree of a run that produced `x`, among the runs of the
    /// jobs that are not marked.
    fn find_producer(
        &self,
        x: &FileStamp,
        obs: &Observation,
        busy: &Vec<bool>,
        Ghost(ancestors): Ghost<Set<JobModel>>,
    ) -> (r: Option<BuildTree>)
        requires
            marks_of(self@, busy@, ancestors),
        ensures
            r matches Some(w) ==> valid_tree(self@, obs@, w@, ancestors) && w@.outputs.contains(x@),
            r is None ==> forall|w: TreeModel|
                !(valid_tree(self@, obs@, w, ancestors) && w.outputs.contains(x@)),
        decreases free_count(busy@), 1int,
    {
        let mut i: usize = 0;
        while i < self.traces.len()
            invariant
                i <= self.traces.len(),
                marks_of(self@, busy@, ancestors),
                forall|a: int, b: int, t: TreeModel|
                    0 <= a < i && 0 <= b < self@[a].1.len() ==> !(#[trigger] witnesses(
                        self@,
                        obs@,
                        t,
                        ancestors,
                        self@[a].1[b],
                    ) && t.job == self@[a].0 && t.outputs.contains(x@)),
            decreases self.traces.len() - i,
        {
            assert(self@[i as int].0 == self.traces@[i as int].0@);
            assert(self@[i as int].1 == views(self.traces@[i as int].1@));
            if !busy[i] {
                let runs = &self.traces[i].1;
                let mut k: usize = 0;
                while k < runs.len()
                    invariant
                        k <= runs.len(),
                        i < self.traces.len(),
                        runs == &self.traces@[i as int].1,
                        self@[i as int].1 == views(runs@),
                        !busy@[i as int],
                        marks_of(self@, busy@, ancestors),
                        forall|b: int, t: TreeModel|
                            0 <= b < k ==> !(#[trigger] witnesses(
                                self@,
                                obs@,
                                t,
                                ancestors,
                                self@[i as int].1[b],
                            ) && t.job == self@[i as int].0 && t.outputs.contains(x@)),
                    decreases runs.len() - k,
                {
                    assert(self@[i as int].1[k as int] == runs@[k as int]@);
                    if contains_stamp(&runs[k].outputs, x) {
                        match self.check_run(i, k, obs, busy, Ghost(ancestors)) {
                            Some(w) => {
                                assert(holds(self@, w@.job, self@[i as int].1[k as int])) by {
                                    assert(at(
                                        self@,
                                        w@.job,
                                        self@[i as int].1[k as int],
                                        i as int,
                                        k as int,
                                    ));
                                }
                                return Some(w);
                            },
                            None => {},
                        }
                    }
                    k += 1;
                }
            } else {
                assert(ancestors.contains(self@[i as int].0));
            }
            i += 1;
        }
        assert forall|w: TreeModel|
            !(valid_tree(self@, obs@, w, ancestors) && w.outputs.contains(x@)) by {
            if valid_tree(self@, obs@, w, ancestors) && w.outputs.contains(x@) {
                let trace = choose|trace: TraceModel| #[trigger]
                    holds(self@, w.job, trace) && witnesses(self@, obs@, w, ancestors, trace);
                let (a, b) = choose|a: int, b: int| at(self@, w.job, trace, a, b);
                assert(witnesses(self@, obs@, w, ancestors, self@[a].1[b]));
            }
        }
        None
    }

    /// Checks one run of a job that is not marked.
    fn check_run(
        &self,
        i: usize,
        k: usize,
        obs: &Observation,
        busy: &Vec<bool>,
        Ghost(ancestors): Ghost<Set<JobModel>>,
    ) -> (r: Option<BuildTree>)
        requires
            marks_of(self@, busy@, ancestors),
            i < self@.len(),
            k < self@[i as int].1.len(),
            !busy@[i as int],
        ensures
            r matches Some(tree) ==> witnesses(
                self@,
                obs@,
                tree@,
                ancestors,
                self@[i as int].1[k as int],
            ) && tree@.job == self@[i as int].0,
            r is None ==> forall|t: TreeModel|
                t.job == self@[i as int].0 ==> !witnesses(
                    self@,
                    obs@,
                    t,
                    ancestors,
                    self@[i as int].1[k as int],
                ),
        decreases free_count(busy@), 0int,
    {
        let job = &self.traces[i].0;
        let trace = &self.traces[i].1[k];
        assert(self@[i as int].0 == job@);
        assert(self@[i as int].1[k as int] == trace@);
        if !is_usable(trace, obs) {
            return None;
        }
        let below = self.mark(busy, job, Ghost(ancestors));
        proof {
            lemma_free_count_less(busy@, below@, i as int);
        }
        self.assemble(job, trace, obs, &below, Ghost(ancestors))
    }

    /// Can the recorded run be used again? If so, the tree returned says why:
    /// the trace is within its horizon, its sources are unchanged, and each
    /// generated dependency has a run, checked in the same way, that produced
    /// it. A job that turns up among its own dependencies is no reason.
    pub fn is_trace_valid(&self, job: &JobSpec, trace: &Trace, obs: &Observation) -> (r: Option<
        BuildTree,
    >)
        ensures
            r matches Some(tree) ==> witnesses(
                self@,
                obs@,
                tree@,
                Set::<JobModel>::empty(),
                trace@,
            ) && tree@.job == job@,
            r is None ==> forall|t: TreeModel|
                t.job == job@ ==> !witnesses(self@, obs@, t, Set::<JobModel>::empty(), trace@),
    {
        if !is_usable(trace, obs) {
            return None;
        }
        let none = self.no_marks();
        let busy = self.mark(&none, job, Ghost(Set::<JobModel>::empty()));
        self.assemble(job, trace, obs, &busy, Ghost(Set::<JobModel>::empty()))
    }

    /// A reason to use a recorded run of the job again, if the graph holds
    /// one. With several runs that qualify, any of them may be the one
    /// returned.
    pub fn valid_trace_for(&self, job: &JobSpec, obs: &Observation) -> (r: Option<BuildTree>)
        ensures
            r matches Some(tree) ==> valid_tree(self@, obs@, tree@, Set::<JobModel>::empty())
                && tree@.job == job@,
            r is None ==> forall|t: TreeModel|
                t.job == job@ ==> !valid_tree(self@, obs@, t, Set::<JobModel>::empty()),
    {
        let ghost nobody = Set::<JobModel>::empty();
        let mut i: usize = 0;
        while i < self.traces.len()
            invariant
                i <= self.traces.len(),
                nobody == Set::<JobModel>::empty(),
                forall|a: int, b: int, t: TreeModel|
                    0 <= a < i && 0 <= b < self@[a].1.len() && self@[a].0 == job@ && t.job == job@
                        ==> !#[trigger] witnesses(self@, obs@, t, nobody, self@[a].1[b]),
            decreases self.traces.len() - i,
        {
            assert(self@[i as int].0 == self.traces@[i as int].0@);
            assert(self@[i as int].1 == views(self.traces@[i as int].1@));
            if self.traces[i].0.same(job) {
                let runs = &self.traces[i].1;
                let mut k: usize = 0;
                while k < runs.len()
                    invariant
                        k <= runs.len(),
                        i < self.traces.len(),
                        nobody == Set::<JobModel>::empty(),
                        runs == &self.traces@[i as int].1,
                        self@[i as int].1 == views(runs@),
                        self@[i as int].0 == job@,
                        forall|b: int, t: TreeModel|
                            0 <= b < k && t.job == job@ ==> !#[trigger] witnesses(
                                self@,
                                obs@,
                                t,
                                nobody,
                                self@[i as int].1[b],
                            ),
                    decreases runs.len() - k,
                {
                    assert(self@[i as int].1[k as int] == runs@[k as int]@);
                    match self.is_trace_valid(job, &runs[k], obs) {
                        Some(tree) => {
                            assert(at(self@, job@, runs@[k as int]@, i as int, k as int));
                            assert(holds(self@, tree@.job, runs@[k as int]@));
                            assert(witnesses(self@, obs@, tree@, nobody, runs@[k as int]@));
                            return Some(tree);
                        },
                        None => {},
                    }
                    k += 1;
                }
            }
            i += 1;
        }
        assert forall|t: TreeModel| t.job == job@ implies !valid_tree(self@, obs@, t, nobody) by {
            if valid_tree(self@, obs@, t, nobody) {
                let trace = choose|trace: TraceModel| #[trigger]
                    holds(self@, t.job, trace) && witnesses(self@, obs@, t, nobody, trace);
                let (a, b) = choose|a: int, b: int| at(self@, t.job, trace, a, b);
                assert(witnesses(self@, obs@, t, nobody, self@[a].1[b]));
            }
        }
        None
    }
}

/// The jobs, with their traces, that are still the jobs chosen for their
/// targets.
pub open spec fn chosen_entries(g: GraphModel, rules: Seq<RuleModel>) -> GraphModel
    decreases g.len(),
{
    if g.len() == 0 {
        g
    } else if chosen_job(rules, g.last().0.target) == Some(g.last().0) {
        chosen_entries(g.drop_last(), rules).push(g.last())
    } else {
        chosen_entries(g.drop_last(), rules)
    }
}

/// The traces whose sources all still have the hash recorded.
pub open spec fn current_traces(runs: Seq<TraceModel>, files: Seq<StampModel>) -> Seq<TraceModel>
    decreases runs.len(),
{
    if runs.len() == 0 {
        runs
    } else if all_hold(files, runs.last().sources) {
        current_traces(runs.drop_last(), files).push(runs.last())
    } else {
        current_traces(runs.drop_last(), files)
    }
}

/// The graph without the traces that are out of date, and without the jobs
/// that are left with no trace.
pub open spec fn current_entries(g: GraphModel, files: Seq<StampModel>) -> GraphModel
    decreases g.len(),
{
    if g.len() == 0 {
        g
    } else if current_traces(g.last().1, files).len() > 0 {
        current_entries(g.drop_last(), files).push((g.last().0, current_traces(g.last().1, files)))
    } else {
        current_entries(g.drop_last(), files)
    }
}

/// The number of traces in the graph.
pub open spec fn trace_count(g: GraphModel) -> nat
    decreases g.len(),
{
    if g.len() == 0 {
        0
    } else {
        trace_count(g.drop_last()) + g.last().1.len()
    }
}

/// The source stamps of all the traces, in order; a stamp may come more than
/// once.
pub open spec fn all_sources(g: GraphModel) -> Seq<StampModel>
    decreases g.len(),
{
    if g.len() == 0 {
        Seq::empty()
    } else {
        all_sources(g.drop_last()) + sources_of(g.last().1)
    }
}

/// The source stamps of the traces, in order.
pub open spec fn sources_of(runs: Seq<TraceModel>) -> Seq<StampModel>
    decreases runs.len(),
{
    if runs.len() == 0 {
        Seq::empty()
    } else {
        sources_of(runs.drop_last()) + runs.last().sources
    }
}

/// The output stamps of all the traces, in order; a stamp may come more than
/// once.
pub open spec fn all_outputs(g: GraphModel) -> Seq<StampModel>
    decreases g.len(),
{
    if g.len() == 0 {
        Seq::empty()
    } else {
        all_outputs(g.drop_last()) + outputs_of(g.last().1)
    }
}

/// The output stamps of the traces, in order.
pub open spec fn outputs_of(runs: Seq<TraceModel>) -> Seq<StampModel>
    decreases runs.len(),
{
    if runs.len() == 0 {
        Seq::empty()
    } else {
        outputs_of(runs.drop_last()) + runs.last().outputs
    }
}

/// Where the runs are that produced `file`: the job's position, then the
/// trace's position under the job.
pub open spec fn produced_at(g: GraphModel, file: StampModel, i: int, k: int) -> bool {
    0 <= i < g.len() && 0 <= k < g[i].1.len() && g[i].1[k].outputs.contains(file)
}

/// The jobs and traces that the texts of trace files stand for.
pub open spec fn recorded(texts: Seq<Seq<char>>, job: JobModel, trace: TraceModel) -> bool {
    exists|n: int|
        0 <= n < texts.len() && read_file(#[trigger] texts[n]) == Ok::<
            (JobModel, TraceModel),
            ParseError,
        >((job, trace))
}

/// Is the graph in form: no job stands twice, under no job a trace stands
/// twice, and every job has a trace?
pub open spec fn well_formed(g: GraphModel) -> bool {
    &&& forall|i: int, j: int| 0 <= i < j < g.len() ==> (#[trigger] g[i]).0 != (#[trigger] g[j]).0
    &&& forall|i: int| 0 <= i < g.len() ==> unique((#[trigger] g[i]).1) && g[i].1.len() > 0
}

/// Does no trace stand twice among the traces?
pub open spec fn unique(runs: Seq<TraceModel>) -> bool {
    forall|k: int, l: int| 0 <= k < l < runs.len() ==> #[trigger] runs[k] != #[trigger] runs[l]
}

/// Is `job` the job of some entry of the graph?
pub open spec fn has_job(g: GraphModel, job: JobModel) -> bool {
    exists|i: int| 0 <= i < g.len() && (#[trigger] g[i]).0 == job
}

/// The traces that are left are traces that were there, each once.
pub proof fn lemma_current_traces(runs: Seq<TraceModel>, files: Seq<StampModel>)
    requires
        unique(runs),
    ensures
        unique(current_traces(runs, files)),
        forall|k: int|
            0 <= k < current_traces(runs, files).len() ==> runs.contains(
                #[trigger] current_traces(runs, files)[k],
            ),
    decreases runs.len(),
{
    if runs.len() > 0 {
        let front = runs.drop_last();
        let kept = current_traces(front, files);
        assert forall|k: int, l: int| 0 <= k < l < front.len() implies #[trigger] front[k]
            != #[trigger] front[l] by {
            assert(front[k] == runs[k] && front[l] == runs[l]);
        }
        lemma_current_traces(front, files);
        let now = current_traces(runs, files);
        assert forall|k: int| 0 <= k < now.len() implies runs.contains(#[trigger] now[k]) by {
            if k < kept.len() {
                assert(front.contains(kept[k]));
                let m = choose|m: int| 0 <= m < front.len() && front[m] == kept[k];
                assert(runs[m] == kept[k]);
            } else {
                assert(runs[runs.len() - 1] == now[k]);
            }
        }
        assert forall|k: int, l: int| 0 <= k < l < now.len() implies #[trigger] now[k]
            != #[trigger] now[l] by {
            if l == kept.len() {
                assert(front.contains(kept[k]));
                let m = choose|m: int| 0 <= m < front.len() && front[m] == kept[k];
                assert(runs[m] == kept[k]);
                assert(runs[runs.len() - 1] == now[l]);
            }
        }
    }
}

/// No more traces are left than there were.
pub proof fn lemma_current_traces_count(runs: Seq<TraceModel>, files: Seq<StampModel>)
    ensures
        current_traces(runs, files).len() <= runs.len(),
    decreases runs.len(),
{
    if runs.len() > 0 {
        lemma_current_traces_count(runs.drop_last(), files);
    }
}

/// Dropping the superseded jobs leaves no more traces than there were.
pub proof fn lemma_chosen_entries_count(g: GraphModel, rules: Seq<RuleModel>)
    ensures
        trace_count(chosen_entries(g, rules)) <= trace_count(g),
    decreases g.len(),
{
    if g.len() > 0 {
        lemma_chosen_entries_count(g.drop_last(), rules);
        let kept = chosen_entries(g.drop_last(), rules);
        assert(kept.push(g.last()).drop_last() =~= kept);
    }
}

/// Dropping the traces that are out of date leaves no more traces than there
/// were.
pub proof fn lemma_current_entries_count(g: GraphModel, files: Seq<StampModel>)
    ensures
        trace_count(current_entries(g, files)) <= trace_count(g),
    decreases g.len(),
{
    if g.len() > 0 {
        lemma_current_entries_count(g.drop_last(), files);
        lemma_current_traces_count(g.last().1, files);
        let kept = current_entries(g.drop_last(), files);
        let entry = (g.last().0, current_traces(g.last().1, files));
        assert(kept.push(entry).drop_last() =~= kept);
    }
}

/// Dropping the superseded jobs leaves the graph in form, with jobs that were
/// there.
pub proof fn lemma_chosen_entries_form(g: GraphModel, rules: Seq<RuleModel>)
    requires
        well_formed(g),
    ensures
        well_formed(chosen_entries(g, rules)),
        forall|a: int|
            0 <= a < chosen_entries(g, rules).len() ==> has_job(
                g,
                (#[trigger] chosen_entries(g, rules)[a]).0,
            ),
    decreases g.len(),
{
    if g.len() > 0 {
        let front = g.drop_last();
        let kept = chosen_entries(front, rules);
        assert(well_formed(front)) by {
            assert forall|i: int, j: int| 0 <= i < j < front.len() implies (#[trigger] front[i]).0
                != (#[trigger] front[j]).0 by {
                assert(front[i] == g[i] && front[j] == g[j]);
            }
            assert forall|i: int| 0 <= i < front.len() implies unique((#[trigger] front[i]).1)
                && front[i].1.len() > 0 by {
                assert(front[i] == g[i]);
            }
        }
        lemma_chosen_entries_form(front, rules);
        let now = chosen_entries(g, rules);
        assert forall|a: int| 0 <= a < now.len() implies has_job(g, (#[trigger] now[a]).0) by {
            if a < kept.len() {
                assert(has_job(front, kept[a].0));
                let m = choose|m: int| 0 <= m < front.len() && (#[trigger] front[m]).0 == kept[a].0;
                assert(g[m].0 == kept[a].0);
            } else {
                assert(g[g.len() - 1].0 == now[a].0);
            }
        }
        assert forall|i: int, j: int| 0 <= i < j < now.len() implies (#[trigger] now[i]).0
            != (#[trigger] now[j]).0 by {
            if j == kept.len() {
                assert(has_job(front, kept[i].0));
                let m = choose|m: int| 0 <= m < front.len() && (#[trigger] front[m]).0 == kept[i].0;
                assert(g[m].0 == kept[i].0);
                assert(g[g.len() - 1].0 == now[j].0);
            }
        }
        assert forall|i: int| 0 <= i < now.len() implies unique((#[trigger] now[i]).1)
            && now[i].1.len() > 0 by {
            if i == kept.len() {
                assert(now[i] == g[g.len() - 1]);
            }
        }
    }
}

/// Dropping the traces that are out of date leaves the graph in form, with
/// jobs that were there.
pub proof fn lemma_current_entries_form(g: GraphModel, files: Seq<StampModel>)
    requires
        well_formed(g),
    ensures
        well_formed(current_entries(g, files)),
        forall|a: int|
            0 <= a < current_entries(g, files).len() ==> has_job(
                g,
                (#[trigger] current_entries(g, files)[a]).0,
            ),
    decreases g.len(),
{
    if g.len() > 0 {
        let front = g.drop_last();
        let kept = current_entries(front, files);
        assert(well_formed(front)) by {
            assert forall|i: int, j: int| 0 <= i < j < front.len() implies (#[trigger] front[i]).0
                != (#[trigger] front[j]).0 by {
                assert(front[i] == g[i] && front[j] == g[j]);
            }
            assert forall|i: int| 0 <= i < front.len() implies unique((#[trigger] front[i]).1)
                && front[i].1.len() > 0 by {
                assert(front[i] == g[i]);
            }
        }
        lemma_current_entries_form(front, files);
        assert(unique(g[g.len() - 1].1));
        lemma_current_traces(g.last().1, files);
        let now = current_entries(g, files);
        assert forall|a: int| 0 <= a < now.len() implies has_job(g, (#[trigger] now[a]).0) by {
            if a < kept.len() {
                assert(has_job(front, kept[a].0));
                let m = choose|m: int| 0 <= m < front.len() && (#[trigger] front[m]).0 == kept[a].0;
                assert(g[m].0 == kept[a].0);
            } else {
                assert(g[g.len() - 1].0 == now[a].0);
            }
        }
        assert forall|i: int, j: int| 0 <= i < j < now.len() implies (#[trigger] now[i]).0
            != (#[trigger] now[j]).0 by {
            if j == kept.len() {
                assert(has_job(front, kept[i].0));
                let m = choose|m: int| 0 <= m < front.len() && (#[trigger] front[m]).0 == kept[i].0;
                assert(g[m].0 == kept[i].0);
                assert(g[g.len() - 1].0 == now[j].0);
            }
        }
    }
}

/// Is the `n`-th text the first that is not a trace file, and `e` the reason?
pub open spec fn first_unreadable(texts: Seq<Seq<char>>, n: int, e: ParseError) -> bool {
    &&& 0 <= n < texts.len()
    &&& read_file(texts[n]) == Err::<(JobModel, TraceModel), ParseError>(e)
    &&& forall|m: int| 0 <= m < n ==> read_file(#[trigger] texts[m]) is Ok
}

/// A copy of a list of traces.
fn clone_traces(runs: &Vec<Trace>) -> (r: Vec<Trace>)
    ensures
        views(r@) == views(runs@),
{
    let mut r: Vec<Trace> = Vec::new();
    let mut i: usize = 0;
    while i < runs.len()
        invariant
            i <= runs.len(),
            views(r@) == views(runs@).take(i as int),
        decreases runs.len() - i,
    {
        let ghost before = views(r@);
        let x = runs[i].clone();
        r.push(x);
        i += 1;
        assert(views(r@) =~= before.push(x@));
        assert(views(r@) =~= views(runs@).take(i as int));
    }
    assert(views(r@) =~= views(runs@));
    r
}

/// Is the trace among the traces?
fn contains_trace(runs: &Vec<Trace>, x: &Trace) -> (r: bool)
    ensures
        r == views(runs@).contains(x@),
{
    let mut i: usize = 0;
    while i < runs.len()
        invariant
            i <= runs.len(),
            forall|j: int| 0 <= j < i ==> views(runs@)[j] != x@,
        decreases runs.len() - i,
    {
        if runs[i].same(x) {
            assert(views(runs@)[i as int] == x@);
            return true;
        }
        i += 1;
    }
    false
}

impl DepGraph {
    /// The graph without any trace.
    pub fn new() -> (g: DepGraph)
        ensures
            g@ == Seq::<(JobModel, Seq<TraceModel>)>::empty(),
    {
        let g = DepGraph { traces: Vec::new() };
        assert(g@ =~= Seq::<(JobModel, Seq<TraceModel>)>::empty());
        g
    }

    /// Takes one more trace into the graph, under its job. A trace that the
    /// graph holds already under the job is not taken twice.
    pub fn insert(&mut self, job: JobSpec, trace: Trace)
        ensures
            forall|j: JobModel, t: TraceModel|
                holds(final(self)@, j, t) <==> (holds(old(self)@, j, t) || (j == job@ && t
                    == trace@)),
            well_formed(old(self)@) ==> well_formed(final(self)@),
    {
        let ghost before = self@;
        let mut e: usize = 0;
        while e < self.traces.len() && !self.traces[e].0.same(&job)
            invariant
                e <= self.traces.len(),
                self@ == before,
                forall|j: int| 0 <= j < e ==> (#[trigger] before[j]).0 != job@,
            decreases self.traces.len() - e,
        {
            assert(before[e as int].0 == self.traces@[e as int].0@);
            e += 1;
        }
        if e == self.traces.len() {
            let mut runs: Vec<Trace> = Vec::new();
            runs.push(trace);
            assert(views(runs@) =~= seq![trace@]);
            self.traces.push((job, runs));
            let ghost after = self@;
            assert(after =~= before.push((job@, seq![trace@])));
            assert forall|j: JobModel, t: TraceModel|
                holds(after, j, t) <==> (holds(before, j, t) || (j == job@ && t == trace@)) by {
                if holds(after, j, t) {
                    let (a, b) = choose|a: int, b: int| at(after, j, t, a, b);
                    if a < before.len() {
                        assert(at(before, j, t, a, b));
                    }
                }
                if holds(before, j, t) {
                    let (a, b) = choose|a: int, b: int| at(before, j, t, a, b);
                    assert(at(after, j, t, a, b));
                }
                if j == job@ && t == trace@ {
                    assert(at(after, j, t, before.len() as int, 0));
                }
            }
            assert(well_formed(before) ==> well_formed(after)) by {
                if well_formed(before) {
                    assert forall|i: int, j: int| 0 <= i < j < after.len() implies (
                    #[trigger] after[i]).0 != (#[trigger] after[j]).0 by {
                        if j < before.len() {
                            assert(after[i] == before[i] && after[j] == before[j]);
                        } else {
                            assert(after[i] == before[i]);
                        }
                    }
                    assert forall|i: int| 0 <= i < after.len() implies unique(
                        (#[trigger] after[i]).1,
                    ) && after[i].1.len() > 0 by {
                        if i < before.len() {
                            assert(after[i] == before[i]);
                        }
                    }
                }
            }
        } else {
            assert(before[e as int].0 == self.traces@[e as int].0@);
            assert(before[e as int].1 == views(self.traces@[e as int].1@));
            if contains_trace(&self.traces[e].1, &trace) {
                proof {
                    let k = choose|k: int|
                        0 <= k < before[e as int].1.len() && before[e as int].1[k] == trace@;
                    assert(at(before, job@, trace@, e as int, k));
                }
            } else {
                let (key, mut runs) = self.traces.remove(e);
                let ghost old_runs = views(runs@);
                runs.push(trace);
                assert(views(runs@) =~= old_runs.push(trace@));
                self.traces.insert(e, (key, runs));
                let ghost after = self@;
                assert(after =~= before.update(e as int, (job@, old_runs.push(trace@))));
                assert forall|j: JobModel, t: TraceModel|
                    holds(after, j, t) <==> (holds(before, j, t) || (j == job@ && t == trace@)) by {
                    if holds(after, j, t) {
                        let (a, b) = choose|a: int, b: int| at(after, j, t, a, b);
                        if a != e || b < old_runs.len() {
                            assert(at(before, j, t, a, b));
                        }
                    }
                    if holds(before, j, t) {
                        let (a, b) = choose|a: int, b: int| at(before, j, t, a, b);
                        assert(at(after, j, t, a, b));
                    }
                    if j == job@ && t == trace@ {
                        assert(at(after, j, t, e as int, old_runs.len() as int));
                    }
                }
                assert(well_formed(before) ==> well_formed(after)) by {
                    if well_formed(before) {
                        assert forall|i: int, j: int| 0 <= i < j < after.len() implies (
                        #[trigger] after[i]).0 != (#[trigger] after[j]).0 by {
                            assert(after[i].0 == before[i].0 && after[j].0 == before[j].0);
                        }
                        assert forall|i: int| 0 <= i < after.len() implies unique(
                            (#[trigger] after[i]).1,
                        ) && after[i].1.len() > 0 by {
                            if i == e {
                                let runs = after[i].1;
                                assert(unique(before[i].1));
                                assert forall|k: int, l: int| 0 <= k < l < runs.len() implies
                                    #[trigger] runs[k] != #[trigger] runs[l] by {
                                    if l < old_runs.len() {
                                        assert(runs[k] == old_runs[k] && runs[l] == old_runs[l]);
                                    } else {
                                        assert(runs[k] == old_runs[k]);
                                        assert(old_runs.contains(old_runs[k]));
                                    }
                                }
                            } else {
                                assert(after[i] == before[i]);
                            }
                        }
                    }
                }
            }
        }
    }

    /// The graph of the trace files whose texts are given. A text that is not
    /// a trace file is an error: the first such text decides which.
    #[verifier::rlimit(40)]
    pub fn load_all(texts: &Vec<String>) -> (r: Result<DepGraph, ParseError>)
        ensures
            r matches Ok(g) ==> forall|j: JobModel, t: TraceModel| #[trigger]
                holds(g@, j, t) ==> recorded(views(texts@), j, t),
            r matches Ok(g) ==> forall|j: JobModel, t: TraceModel| #[trigger]
                recorded(views(texts@), j, t) ==> holds(g@, j, t),
            r matches Ok(g) ==> forall|n: int|
                0 <= n < texts@.len() ==> read_file(#[trigger] views(texts@)[n]) is Ok,
            r matches Ok(g) ==> well_formed(g@),
            r matches Err(e) ==> exists|n: int| first_unreadable(views(texts@), n, e),
    {
        let mut graph = DepGraph::new();
        let ghost all = views(texts@);
        let mut i: usize = 0;
        assert forall|j: JobModel, t: TraceModel|
            holds(graph@, j, t) <==> recorded(all.take(0), j, t) by {
            if holds(graph@, j, t) {
                let (a, b) = choose|a: int, b: int| at(graph@, j, t, a, b);
            }
        }
        while i < texts.len()
            invariant
                i <= texts.len(),
                all == views(texts@),
                forall|j: JobModel, t: TraceModel| #[trigger]
                    holds(graph@, j, t) ==> recorded(all.take(i as int), j, t),
                forall|j: JobModel, t: TraceModel| #[trigger]
                    recorded(all.take(i as int), j, t) ==> holds(graph@, j, t),
                forall|n: int| 0 <= n < i ==> read_file(#[trigger] all[n]) is Ok,
                well_formed(graph@),
            decreases texts.len() - i,
        {
            let ghost before = graph@;
            let ghost done = all.take(i as int);
            let ghost next = all.take(i + 1);
            assert(all[i as int] == texts@[i as int]@);
            match TraceFile::read(texts[i].as_str()) {
                Ok(p) => {
                    let ghost job = p.0@;
                    let ghost trace = p.1@;
                    graph.insert(p.0, p.1);
                    assert forall|j: JobModel, t: TraceModel|
                        holds(graph@, j, t) <==> recorded(next, j, t) by {
                        if recorded(next, j, t) {
                            let n = choose|n: int|
                                0 <= n < next.len() && read_file(#[trigger] next[n]) == Ok::<
                                    (JobModel, TraceModel),
                                    ParseError,
                                >((j, t));
                            if n < i {
                                assert(done[n] == next[n]);
                                assert(recorded(done, j, t));
                            }
                        }
                        if holds(graph@, j, t) && holds(before, j, t) {
                            assert(recorded(done, j, t));
                            let n = choose|n: int|
                                0 <= n < done.len() && read_file(#[trigger] done[n]) == Ok::<
                                    (JobModel, TraceModel),
                                    ParseError,
                                >((j, t));
                            assert(next[n] == done[n]);
                        }
                        if j == job && t == trace {
                            assert(next[i as int] == all[i as int]);
                        }
                        if recorded(next, j, t) && !(j == job && t == trace) {
                            assert(holds(before, j, t));
                        }
                    }
                },
                Err(e) => {
                    assert(first_unreadable(all, i as int, e));
                    return Err(e);
                },
            }
            i += 1;
        }
        assert(all.take(i as int) =~= all);
        Ok(graph)
    }

    /// The graph of the trace files, without the jobs that are no longer the
    /// jobs chosen for their targets.
    pub fn load(texts: &Vec<String>, ruleset: &RuleSet) -> (r: Result<DepGraph, ParseError>)
        ensures
            r matches Ok(g) ==> forall|j: JobModel, t: TraceModel| #[trigger]
                holds(g@, j, t) ==> recorded(views(texts@), j, t) && chosen_job(
                    ruleset@,
                    j.target,
                ) == Some(j),
            r matches Ok(g) ==> forall|j: JobModel, t: TraceModel| #[trigger]
                recorded(views(texts@), j, t) && chosen_job(ruleset@, j.target) == Some(j)
                    ==> holds(g@, j, t),
            r matches Ok(g) ==> well_formed(g@),
            r matches Err(e) ==> exists|n: int| first_unreadable(views(texts@), n, e),
    {
        match DepGraph::load_all(texts) {
            Ok(mut graph) => {
                let ghost before = graph@;
                graph.drop_superseded(ruleset);
                proof {
                    lemma_chosen_entries(before, ruleset@);
                }
                Ok(graph)
            },
            Err(e) => Err(e),
        }
    }

    /// Drops the jobs whose rule has been overridden: those that are no longer
    /// the jobs chosen for their targets. Returns the number of traces dropped.
    pub fn drop_superseded(&mut self, ruleset: &RuleSet) -> (dropped: usize)
        ensures
            final(self)@ == chosen_entries(old(self)@, ruleset@),
            well_formed(old(self)@) ==> well_formed(final(self)@),
            trace_count(final(self)@) <= trace_count(old(self)@),
            trace_count(old(self)@) < usize::MAX ==> dropped == trace_count(old(self)@)
                - trace_count(final(self)@),
            trace_count(old(self)@) >= usize::MAX ==> dropped == usize::MAX,
    {
        let before = self.len();
        let mut kept: Vec<(JobSpec, Vec<Trace>)> = Vec::new();
        let ghost all = self@;
        let ghost mut kept_view: GraphModel = Seq::empty();
        let mut i: usize = 0;
        assert(all.take(0) =~= Seq::<(JobModel, Seq<TraceModel>)>::empty());
        while i < self.traces.len()
            invariant
                i <= self.traces.len(),
                all == self@,
                kept_view == chosen_entries(all.take(i as int), ruleset@),
                kept_view == (DepGraph { traces: kept })@,
            decreases self.traces.len() - i,
        {
            let ghost next = all.take(i + 1);
            assert(next.drop_last() =~= all.take(i as int));
            assert(next.last().0 == self.traces@[i as int].0@);
            assert(next.last().1 == views(self.traces@[i as int].1@));
            if ruleset.is_job_valid(&self.traces[i].0) {
                let job = self.traces[i].0.clone();
                let runs = clone_traces(&self.traces[i].1);
                kept.push((job, runs));
                proof {
                    kept_view = kept_view.push((job@, views(runs@)));
                    assert((DepGraph { traces: kept })@ =~= kept_view);
                }
            }
            i += 1;
        }
        assert(all.take(i as int) =~= all);
        self.traces = kept;
        proof {
            lemma_chosen_entries_count(all, ruleset@);
            if well_formed(all) {
                lemma_chosen_entries_form(all, ruleset@);
            }
        }
        let after = self.len();
        if before == usize::MAX {
            usize::MAX
        } else {
            before - after
        }
    }

    /// Drops the traces that are out of date: those with a source that no
    /// longer has the hash recorded. A job left without traces is dropped too.
    /// Returns the number of traces dropped.
    pub fn drop_out_of_date(&mut self, files: &Snapshot) -> (dropped: usize)
        ensures
            final(self)@ == current_entries(old(self)@, files@),
            well_formed(old(self)@) ==> well_formed(final(self)@),
            trace_count(final(self)@) <= trace_count(old(self)@),
            trace_count(old(self)@) < usize::MAX ==> dropped == trace_count(old(self)@)
                - trace_count(final(self)@),
            trace_count(old(self)@) >= usize::MAX ==> dropped == usize::MAX,
    {
        let before = self.len();
        let mut kept: Vec<(JobSpec, Vec<Trace>)> = Vec::new();
        let ghost all = self@;
        let ghost mut kept_view: GraphModel = Seq::empty();
        let mut i: usize = 0;
        assert(all.take(0) =~= Seq::<(JobModel, Seq<TraceModel>)>::empty());
        while i < self.traces.len()
            invariant
                i <= self.traces.len(),
                all == self@,
                kept_view == current_entries(all.take(i as int), files@),
                kept_view == (DepGraph { traces: kept })@,
            decreases self.traces.len() - i,
        {
            let ghost next = all.take(i + 1);
            assert(next.drop_last() =~= all.take(i as int));
            assert(next.last().0 == self.traces@[i as int].0@);
            assert(next.last().1 == views(self.traces@[i as int].1@));
            let runs = &self.traces[i].1;
            let ghost given = views(runs@);
            let mut current: Vec<Trace> = Vec::new();
            let mut k: usize = 0;
            assert(given.take(0) =~= Seq::<TraceModel>::empty());
            assert(views(current@) =~= Seq::<TraceModel>::empty());
            while k < runs.len()
                invariant
                    k <= runs.len(),
                    given == views(runs@),
                    views(current@) == current_traces(given.take(k as int), files@),
                decreases runs.len() - k,
            {
                let ghost upto = given.take(k + 1);
                assert(upto.drop_last() =~= given.take(k as int));
                assert(upto.last() == runs@[k as int]@);
                if files.confirms_all(&runs[k].sources) {
                    let ghost had = views(current@);
                    let x = runs[k].clone();
                    current.push(x);
                    assert(views(current@) =~= had.push(x@));
                }
                k += 1;
            }
            assert(given.take(k as int) =~= given);
            if current.len() > 0 {
                let job = self.traces[i].0.clone();
                kept.push((job, current));
                proof {
                    kept_view = kept_view.push((job@, views(current@)));
                    assert((DepGraph { traces: kept })@ =~= kept_view);
                }
            }
            i += 1;
        }
        assert(all.take(i as int) =~= all);
        self.traces = kept;
        proof {
            lemma_current_entries_count(all, files@);
            if well_formed(all) {
                lemma_current_entries_form(all, files@);
            }
        }
        let after = self.len();
        if before == usize::MAX {
            usize::MAX
        } else {
            before - after
        }
    }

    /// The number of traces, or the largest number there is if they are more.
    pub fn len(&self) -> (n: usize)
        ensures
            n == trace_count(self@) || (n == usize::MAX && trace_count(self@) >= usize::MAX),
    {
        let mut n: usize = 0;
        let ghost all = self@;
        let mut i: usize = 0;
        assert(all.take(0) =~= Seq::<(JobModel, Seq<TraceModel>)>::empty());
        while i < self.traces.len()
            invariant
                i <= self.traces.len(),
                all == self@,
                n == trace_count(all.take(i as int)) || (n == usize::MAX && trace_count(
                    all.take(i as int),
                ) >= usize::MAX),
            decreases self.traces.len() - i,
        {
            let ghost next = all.take(i + 1);
            assert(next.drop_last() =~= all.take(i as int));
            assert(next.last().1.len() == self.traces@[i as int].1@.len());
            let more = self.traces[i].1.len();
            n = if more > usize::MAX - n {
                usize::MAX
            } else {
                n + more
            };
            i += 1;
        }
        assert(all.take(i as int) =~= all);
        n
    }

    /// Where the runs are that produced `file`: for each, the position of its
    /// job and the position of its trace under the job, in order.
    pub fn runs_producing(&self, file: &FileStamp) -> (r: Vec<(usize, usize)>)
        ensures
            forall|n: int|
                0 <= n < r@.len() ==> produced_at(
                    self@,
                    file@,
                    (#[trigger] r@[n]).0 as int,
                    r@[n].1 as int,
                ),
            forall|i: int, k: int|
                produced_at(self@, file@, i, k) ==> exists|n: int|
                    0 <= n < r@.len() && #[trigger] r@[n] == (i as usize, k as usize),
    {
        let mut r: Vec<(usize, usize)> = Vec::new();
        let mut i: usize = 0;
        while i < self.traces.len()
            invariant
                i <= self.traces.len(),
                forall|n: int|
                    0 <= n < r@.len() ==> produced_at(
                        self@,
                        file@,
                        (#[trigger] r@[n]).0 as int,
                        r@[n].1 as int,
                    ),
                forall|a: int, b: int|
                    produced_at(self@, file@, a, b) && a < i ==> exists|n: int|
                        0 <= n < r@.len() && #[trigger] r@[n] == (a as usize, b as usize),
            decreases self.traces.len() - i,
        {
            let runs = &self.traces[i].1;
            assert(self@[i as int].1 == views(runs@));
            let mut k: usize = 0;
            while k < runs.len()
                invariant
                    k <= runs.len(),
                    i < self.traces.len(),
                    self@[i as int].1 == views(runs@),
                    forall|n: int|
                        0 <= n < r@.len() ==> produced_at(
                            self@,
                            file@,
                            (#[trigger] r@[n]).0 as int,
                            r@[n].1 as int,
                        ),
                    forall|a: int, b: int|
                        produced_at(self@, file@, a, b) && (a < i || (a == i && b < k))
                            ==> exists|n: int|
                            0 <= n < r@.len() && #[trigger] r@[n] == (a as usize, b as usize),
                decreases runs.len() - k,
            {
                assert(self@[i as int].1[k as int] == runs@[k as int]@);
                if contains_stamp(&runs[k].outputs, file) {
                    let ghost had = r@;
                    r.push((i, k));
                    assert forall|a: int, b: int|
                        produced_at(self@, file@, a, b) && (a < i || (a == i && b < k + 1))
                        implies exists|n: int|
                        0 <= n < r@.len() && #[trigger] r@[n] == (a as usize, b as usize) by {
                        if a == i && b == k {
                            assert(r@[had.len() as int] == (a as usize, b as usize));
                        } else {
                            let n = choose|n: int|
                                0 <= n < had.len() && #[trigger] had[n] == (a as usize, b as usize);
                            assert(r@[n] == had[n]);
                        }
                    }
                }
                k += 1;
            }
            i += 1;
        }
        r
    }

    /// The source stamps of all the traces; a stamp may come more than once.
    pub fn sources(&self) -> (r: Vec<FileStamp>)
        ensures
            views(r@) == all_sources(self@),
    {
        let mut r: Vec<FileStamp> = Vec::new();
        let ghost all = self@;
        let mut i: usize = 0;
        assert(all.take(0) =~= Seq::<(JobModel, Seq<TraceModel>)>::empty());
        assert(views(r@) =~= Seq::<StampModel>::empty());
        while i < self.traces.len()
            invariant
                i <= self.traces.len(),
                all == self@,
                views(r@) == all_sources(all.take(i as int)),
            decreases self.traces.len() - i,
        {
            let ghost next = all.take(i + 1);
            assert(next.drop_last() =~= all.take(i as int));
            assert(next.last().1 == views(self.traces@[i as int].1@));
            let runs = &self.traces[i].1;
            let ghost given = views(runs@);
            let ghost start = views(r@);
            let mut k: usize = 0;
            assert(given.take(0) =~= Seq::<TraceModel>::empty());
            assert(start + sources_of(given.take(0)) =~= start);
            while k < runs.len()
                invariant
                    k <= runs.len(),
                    given == views(runs@),
                    views(r@) == start + sources_of(given.take(k as int)),
                decreases runs.len() - k,
            {
                let ghost upto = given.take(k + 1);
                assert(upto.drop_last() =~= given.take(k as int));
                assert(upto.last() == runs@[k as int]@);
                let ghost had = views(r@);
                let stamps = &runs[k].sources;
                let mut m: usize = 0;
                assert(views(stamps@).take(0) =~= Seq::<StampModel>::empty());
                assert(had + views(stamps@).take(0) =~= had);
                while m < stamps.len()
                    invariant
                        m <= stamps.len(),
                        views(r@) == had + views(stamps@).take(m as int),
                    decreases stamps.len() - m,
                {
                    let ghost cur = views(r@);
                    let x = stamps[m].clone();
                    r.push(x);
                    assert(views(r@) =~= cur.push(x@));
                    m += 1;
                    assert(views(r@) =~= had + views(stamps@).take(m as int));
                }
                assert(views(stamps@).take(m as int) =~= views(stamps@));
                assert(views(r@) =~= start + sources_of(upto));
                k += 1;
            }
            assert(given.take(k as int) =~= given);
            i += 1;
        }
        assert(all.take(i as int) =~= all);
        r
    }

    /// The output stamps of all the traces; a stamp may come more than once.
    pub fn outputs(&self) -> (r: Vec<FileStamp>)
        ensures
            views(r@) == all_outputs(self@),
    {
        let mut r: Vec<FileStamp> = Vec::new();
        let ghost all = self@;
        let mut i: usize = 0;
        assert(all.take(0) =~= Seq::<(JobModel, Seq<TraceModel>)>::empty());
        assert(views(r@) =~= Seq::<StampModel>::empty());
        while i < self.traces.len()
            invariant
                i <= self.traces.len(),
                all == self@,
                views(r@) == all_outputs(all.take(i as int)),
            decreases self.traces.len() - i,
        {
            let ghost next = all.take(i + 1);
            assert(next.drop_last() =~= all.take(i as int));
            assert(next.last().1 == views(self.traces@[i as int].1@));
            let runs = &self.traces[i].1;
            let ghost given = views(runs@);
            let ghost start = views(r@);
            let mut k: usize = 0;
            assert(given.take(0) =~= Seq::<TraceModel>::empty());
            assert(start + outputs_of(given.take(0)) =~= start);
            while k < runs.len()
                invariant
                    k <= runs.len(),
                    given == views(runs@),
                    views(r@) == start + outputs_of(given.take(k as int)),
                decreases runs.len() - k,
            {
                let ghost upto = given.take(k + 1);
                assert(upto.drop_last() =~= given.take(k as int));
                assert(upto.last() == runs@[k as int]@);
                let ghost had = views(r@);
                let stamps = &runs[k].outputs;
                let mut m: usize = 0;
                assert(views(stamps@).take(0) =~= Seq::<StampModel>::empty());
                assert(had + views(stamps@).take(0) =~= had);
                while m < stamps.len()
                    invariant
                        m <= stamps.len(),
                        views(r@) == had + views(stamps@).take(m as int),
                    decreases stamps.len() - m,
                {
                    let ghost cur = views(r@);
                    let x = stamps[m].clone();
                    r.push(x);
                    assert(views(r@) =~= cur.push(x@));
                    m += 1;
                    assert(views(r@) =~= had + views(stamps@).take(m as int));
                }
                assert(views(stamps@).take(m as int) =~= views(stamps@));
                assert(views(r@) =~= start + outputs_of(upto));
                k += 1;
            }
            assert(given.take(k as int) =~= given);
            i += 1;
        }
        assert(all.take(i as int) =~= all);
        r
    }
}

/// What is left after the superseded jobs are dropped: every trace of a job
/// that is still chosen for its target, and no other.
pub proof fn lemma_chosen_entries(g: GraphModel, rules: Seq<RuleModel>)
    ensures
        forall|j: JobModel, t: TraceModel| #[trigger]
            holds(chosen_entries(g, rules), j, t) ==> holds(g, j, t) && chosen_job(
                rules,
                j.target,
            ) == Some(j),
        forall|j: JobModel, t: TraceModel| #[trigger]
            holds(g, j, t) && chosen_job(rules, j.target) == Some(j) ==> holds(
                chosen_entries(g, rules),
                j,
                t,
            ),
    decreases g.len(),
{
    let kept = chosen_entries(g, rules);
    if g.len() == 0 {
        assert forall|j: JobModel, t: TraceModel| !holds(g, j, t) by {
            if holds(g, j, t) {
                let (a, b) = choose|a: int, b: int| at(g, j, t, a, b);
            }
        }
    } else {
        let front = g.drop_last();
        let kept_front = chosen_entries(front, rules);
        lemma_chosen_entries(front, rules);
        assert forall|j: JobModel, t: TraceModel| #[trigger] holds(kept, j, t) implies holds(g, j, t)
            && chosen_job(rules, j.target) == Some(j) by {
            let (a, b) = choose|a: int, b: int| at(kept, j, t, a, b);
            if a < kept_front.len() {
                assert(at(kept_front, j, t, a, b));
                assert(holds(kept_front, j, t));
                assert(holds(front, j, t));
                let (c, d) = choose|c: int, d: int| at(front, j, t, c, d);
                assert(at(g, j, t, c, d));
            } else {
                assert(at(g, j, t, g.len() - 1, b));
            }
        }
        assert forall|j: JobModel, t: TraceModel| #[trigger]
            holds(g, j, t) && chosen_job(rules, j.target) == Some(j) implies holds(kept, j, t) by {
            let (a, b) = choose|a: int, b: int| at(g, j, t, a, b);
            if a < front.len() {
                assert(at(front, j, t, a, b));
                assert(holds(front, j, t));
                assert(holds(kept_front, j, t));
                let (c, d) = choose|c: int, d: int| at(kept_front, j, t, c, d);
                assert(at(kept, j, t, c, d));
            } else {
                assert(at(kept, j, t, kept.len() - 1, b));
            }
        }
    }
}

/// Is the `k`-th trace of the `i`-th job a run that produced `target`, and that
/// job not among the ancestors?
pub open spec fn free_producer(
    g: GraphModel,
    target: StampModel,
    ancestors: Set<JobModel>,
    i: int,
    k: int,
) -> bool {
    produced_at(g, target, i, k) && !ancestors.contains(g[i].0)
}

/// Is it the first such run, in the order of the graph?
pub open spec fn first_free_producer(
    g: GraphModel,
    target: StampModel,
    ancestors: Set<JobModel>,
    i: int,
    k: int,
) -> bool {
    &&& free_producer(g, target, ancestors, i, k)
    &&& forall|a: int, b: int|
        (a < i || (a == i && b < k)) ==> !#[trigger] free_producer(g, target, ancestors, a, b)
}

/// Is there a run that produced `target`, of a job that is not among the
/// ancestors?
pub open spec fn has_free_producer(g: GraphModel, target: StampModel, ancestors: Set<JobModel>) -> bool {
    exists|i: int, k: int| free_producer(g, target, ancestors, i, k)
}

/// The stamps for which there is such a run, in order.
pub open spec fn with_producer(g: GraphModel, stamps: Seq<StampModel>, ancestors: Set<JobModel>) -> Seq<
    StampModel,
>
    decreases stamps.len(),
{
    if stamps.len() == 0 {
        stamps
    } else if has_free_producer(g, stamps.last(), ancestors) {
        with_producer(g, stamps.drop_last(), ancestors).push(stamps.last())
    } else {
        with_producer(g, stamps.drop_last(), ancestors)
    }
}

/// The stamps that the subtrees of a tree stand for.
pub open spec fn stamps_of(parts: Seq<(StampModel, TreeModel)>) -> Seq<StampModel> {
    Seq::new(parts.len(), |n: int| parts[n].0)
}

/// Is the tree an excerpt of this trace: same sources, outputs and horizon,
/// and one subtree for each generated dependency that has a run below?
pub open spec fn records(g: GraphModel, trace: TraceModel, tree: TreeModel, below: Set<JobModel>) -> bool {
    &&& tree.sources == trace.sources
    &&& tree.outputs == trace.outputs
    &&& tree.valid_until == trace.valid_until
    &&& stamps_of(tree.intermediates) == with_producer(g, trace.intermediates, below)
}

/// Does the tree say how `target` came about, according to the graph? It is
/// an excerpt of the first run that produced the target, among the jobs that
/// are not ancestors, and each subtree says the same of a generated
/// dependency of that run. Nothing is checked against the files or the time.
pub open spec fn explains(g: GraphModel, tree: TreeModel, ancestors: Set<JobModel>, target: StampModel) -> bool
    decreases tree,
{
    &&& exists|i: int, k: int| #[trigger]
        first_free_producer(g, target, ancestors, i, k) && tree.job == g[i].0 && records(
            g,
            g[i].1[k],
            tree,
            ancestors.insert(tree.job),
        )
    &&& forall|n: int|
        0 <= n < tree.intermediates.len() ==> explains(
            g,
            (#[trigger] tree.intermediates[n]).1,
            ancestors.insert(tree.job),
            tree.intermediates[n].0,
        )
}

/// There is only one first run.
pub proof fn lemma_first_producer_unique(
    g: GraphModel,
    target: StampModel,
    ancestors: Set<JobModel>,
    i: int,
    k: int,
    a: int,
    b: int,
)
    requires
        first_free_producer(g, target, ancestors, i, k),
        first_free_producer(g, target, ancestors, a, b),
    ensures
        i == a,
        k == b,
{
}

/// The graph tells one story of a target and no other.
pub proof fn lemma_explanation_unique(
    g: GraphModel,
    one: TreeModel,
    other: TreeModel,
    ancestors: Set<JobModel>,
    target: StampModel,
)
    requires
        explains(g, one, ancestors, target),
        explains(g, other, ancestors, target),
    ensures
        one == other,
    decreases one,
{
    let (i, k) = choose|i: int, k: int| #[trigger]
        first_free_producer(g, target, ancestors, i, k) && one.job == g[i].0 && records(
            g,
            g[i].1[k],
            one,
            ancestors.insert(one.job),
        );
    let (a, b) = choose|a: int, b: int| #[trigger]
        first_free_producer(g, target, ancestors, a, b) && other.job == g[a].0 && records(
            g,
            g[a].1[b],
            other,
            ancestors.insert(other.job),
        );
    lemma_first_producer_unique(g, target, ancestors, i, k, a, b);
    assert(stamps_of(one.intermediates) == stamps_of(other.intermediates));
    assert(one.intermediates.len() == stamps_of(one.intermediates).len());
    assert(other.intermediates.len() == stamps_of(other.intermediates).len());
    assert forall|n: int| 0 <= n < one.intermediates.len() implies one.intermediates[n]
        == other.intermediates[n] by {
        assert(one.intermediates[n].0 == stamps_of(one.intermediates)[n]);
        assert(other.intermediates[n].0 == stamps_of(other.intermediates)[n]);
        lemma_explanation_unique(
            g,
            one.intermediates[n].1,
            other.intermediates[n].1,
            ancestors.insert(one.job),
            one.intermediates[n].0,
        );
    }
    assert(one.intermediates =~= other.intermediates);
}

impl DepGraph {
    /// Says how `target` came about, going by the first run that produced it
    /// among the jobs that are not marked.
    fn explain(&self, target: &FileStamp, busy: &Vec<bool>, Ghost(ancestors): Ghost<Set<JobModel>>) -> (r:
        Option<BuildTree>)
        requires
            marks_of(self@, busy@, ancestors),
        ensures
            r matches Some(tree) ==> explains(self@, tree@, ancestors, target@),
            r is None ==> !has_free_producer(self@, target@, ancestors),
        decreases free_count(busy@),
    {
        let mut i: usize = 0;
        while i < self.traces.len()
            invariant
                i <= self.traces.len(),
                marks_of(self@, busy@, ancestors),
                forall|a: int, b: int|
                    a < i ==> !#[trigger] free_producer(self@, target@, ancestors, a, b),
            decreases self.traces.len() - i,
        {
            assert(self@[i as int].0 == self.traces@[i as int].0@);
            assert(self@[i as int].1 == views(self.traces@[i as int].1@));
            if !busy[i] {
                let runs = &self.traces[i].1;
                let mut k: usize = 0;
                while k < runs.len()
                    invariant
                        k <= runs.len(),
                        i < self.traces.len(),
                        runs == &self.traces@[i as int].1,
                        self@[i as int].1 == views(runs@),
                        self@[i as int].0 == self.traces@[i as int].0@,
                        !busy@[i as int],
                        marks_of(self@, busy@, ancestors),
                        forall|a: int, b: int|
                            (a < i || (a == i && b < k)) ==> !#[trigger] free_producer(
                                self@,
                                target@,
                                ancestors,
                                a,
                                b,
                            ),
                    decreases runs.len() - k,
                {
                    assert(self@[i as int].1[k as int] == runs@[k as int]@);
                    if contains_stamp(&runs[k].outputs, target) {
                        let job = &self.traces[i].0;
                        let trace = &runs[k];
                        let below = self.mark(busy, job, Ghost(ancestors));
                        let ghost deeper = ancestors.insert(job@);
                        let ghost wanted = trace@.intermediates;
                        proof {
                            lemma_free_count_less(busy@, below@, i as int);
                            assert(first_free_producer(
                                self@,
                                target@,
                                ancestors,
                                i as int,
                                k as int,
                            ));
                        }
                        let mut parts: Vec<(FileStamp, BuildTree)> = Vec::new();
                        let ghost mut kept: Seq<StampModel> = Seq::empty();
                        let mut m: usize = 0;
                        assert(wanted.take(0) =~= Seq::<StampModel>::empty());
                        while m < trace.intermediates.len()
                            invariant
                                m <= trace.intermediates.len(),
                                wanted == trace@.intermediates,
                                marks_of(self@, below@, deeper),
                                free_count(below@) < free_count(busy@),
                                kept == with_producer(self@, wanted.take(m as int), deeper),
                                parts@.len() == kept.len(),
                                forall|n: int|
                                    0 <= n < parts@.len() ==> {
                                        &&& (#[trigger] parts@[n]).0@ == kept[n]
                                        &&& explains(self@, parts@[n].1@, deeper, kept[n])
                                    },
                            decreases trace.intermediates.len() - m,
                        {
                            let x = &trace.intermediates[m];
                            let ghost upto = wanted.take(m + 1);
                            assert(upto.drop_last() =~= wanted.take(m as int));
                            assert(upto.last() == x@);
                            match self.explain(x, &below, Ghost(deeper)) {
                                Some(w) => {
                                    proof {
                                        let (a, b) = choose|a: int, b: int| #[trigger]
                                            first_free_producer(self@, x@, deeper, a, b) && w@.job
                                                == self@[a].0 && records(
                                                self@,
                                                self@[a].1[b],
                                                w@,
                                                deeper.insert(w@.job),
                                            );
                                        assert(free_producer(self@, x@, deeper, a, b));
                                        kept = kept.push(x@);
                                    }
                                    parts.push((x.clone(), w));
                                },
                                None => {},
                            }
                            m += 1;
                        }
                        assert(wanted.take(m as int) =~= wanted);
                        let tree = BuildTree {
                            job: job.clone(),
                            sources: clone_stamps(&trace.sources),
                            intermediates: parts,
                            outputs: clone_stamps(&trace.outputs),
                            valid_until: trace.valid_until,
                        };
                        proof {
                            lemma_tree_view(tree);
                            assert(stamps_of(tree@.intermediates) =~= kept);
                            assert(records(self@, trace@, tree@, deeper));
                            assert forall|n: int| 0 <= n < tree@.intermediates.len() implies explains(
                                self@,
                                (#[trigger] tree@.intermediates[n]).1,
                                deeper,
                                tree@.intermediates[n].0,
                            ) by {
                                assert(tree@.intermediates[n] == (parts@[n].0@, parts@[n].1@));
                            }
                        }
                        return Some(tree);
                    }
                    assert(!free_producer(self@, target@, ancestors, i as int, k as int));
                    k += 1;
                }
            } else {
                assert(ancestors.contains(self@[i as int].0));
            }
            i += 1;
        }
        assert forall|a: int, b: int| !free_producer(self@, target@, ancestors, a, b) by {
            if free_producer(self@, target@, ancestors, a, b) {
                assert(a < i);
            }
        }
        None
    }

    /// Says how `target` came about: the first run that produced it, with the
    /// same said of each of its generated dependencies that the graph knows a
    /// run for. A job is not followed into itself. `None` when no run produced
    /// the target.
    pub fn some_tree_for(&self, target: &FileStamp) -> (r: Option<BuildTree>)
        ensures
            r matches Some(tree) ==> explains(self@, tree@, Set::<JobModel>::empty(), target@),
            r is None ==> forall|i: int, k: int| !produced_at(self@, target@, i, k),
    {
        let none = self.no_marks();
        let r = self.explain(target, &none, Ghost(Set::<JobModel>::empty()));
        proof {
            if r is None {
                assert forall|i: int, k: int| !produced_at(self@, target@, i, k) by {
                    if produced_at(self@, target@, i, k) {
                        assert(free_producer(self@, target@, Set::<JobModel>::empty(), i, k));
                    }
                }
            }
        }
        r
    }
}

} // verus!
