//! What the commands that only look at the workspace have to say.

use crate::depgraph::{
    chosen_entries, current_entries, explains, produced_at, valid_tree, DepGraph, GraphModel,
    Observation, ObsModel, TreeModel,
};
use crate::display::{outline_of, outline_rows, rows_text, trace_summary, Outline};
use crate::filestamp::{current_hash, FileStamp, Snapshot, StampModel};
use crate::job::{job_text, JobModel};
use crate::local_path::{
    lemma_path_order, lemma_path_transitive, path_before, path_text, LocalPath,
};
use crate::ruleset::{chosen_job, glob_text, rule_path, RuleModel, RuleSet};
use crate::text::{chars_of, push_chars, push_str, string_of, views};
use vstd::prelude::*;
use vstd::string::*;

verus! {

/// Is the path to be listed: either everything is, or a file was found there?
pub open spec fn listed(path: Seq<Seq<char>>, all: bool, files: Seq<StampModel>) -> bool {
    all || current_hash(files, path) is Some
}

/// Is `path` to be listed: is it the path of one of the stamps, and either
/// everything is listed or a file was found there?
pub open spec fn in_listing(
    stamps: Seq<StampModel>,
    all: bool,
    files: Seq<StampModel>,
    path: Seq<Seq<char>>,
) -> bool {
    listed(path, all, files) && exists|n: int| 0 <= n < stamps.len() && (#[trigger] stamps[n]).path == path
}

/// Are the paths in order, each before the next? Then none stands twice.
pub open spec fn ascending(paths: Seq<Seq<Seq<char>>>) -> bool {
    forall|i: int, j: int| 0 <= i < j < paths.len() ==> path_before(#[trigger] paths[i], #[trigger] paths[j])
}

/// Paths in order that list the same paths are the same list.
pub proof fn lemma_ascending_unique(one: Seq<Seq<Seq<char>>>, other: Seq<Seq<Seq<char>>>)
    requires
        ascending(one),
        ascending(other),
        forall|p: Seq<Seq<char>>| one.contains(p) <==> other.contains(p),
    ensures
        one == other,
    decreases one.len(),
{
    if one.len() == 0 {
        if other.len() > 0 {
            assert(other.contains(other[0]));
        }
        assert(one =~= other);
    } else if other.len() == 0 {
        assert(one.contains(one[0]));
    } else {
        // the first of each is the least of both
        let a = one[0];
        let b = other[0];
        assert(one.contains(a));
        assert(other.contains(b));
        let i = choose|i: int| 0 <= i < other.len() && other[i] == a;
        let j = choose|j: int| 0 <= j < one.len() && one[j] == b;
        lemma_path_order(a, b);
        if i > 0 {
            assert(path_before(other[0], other[i]));
        }
        if j > 0 {
            assert(path_before(one[0], one[j]));
        }
        assert(a == b);
        let rest = one.drop_first();
        let others = other.drop_first();
        assert forall|p: Seq<Seq<char>>| rest.contains(p) <==> others.contains(p) by {
            if rest.contains(p) {
                let k = choose|k: int| 0 <= k < rest.len() && rest[k] == p;
                assert(one[k + 1] == p);
                assert(path_before(one[0], one[k + 1]));
                lemma_path_order(a, p);
                assert(one.contains(p));
                let m = choose|m: int| 0 <= m < other.len() && other[m] == p;
                assert(others[m - 1] == p);
            }
            if others.contains(p) {
                let k = choose|k: int| 0 <= k < others.len() && others[k] == p;
                assert(other[k + 1] == p);
                assert(path_before(other[0], other[k + 1]));
                lemma_path_order(b, p);
                assert(other.contains(p));
                let m = choose|m: int| 0 <= m < one.len() && one[m] == p;
                assert(rest[m - 1] == p);
            }
        }
        assert forall|x: int, y: int| 0 <= x < y < rest.len() implies path_before(
            #[trigger] rest[x],
            #[trigger] rest[y],
        ) by {
            assert(path_before(one[x + 1], one[y + 1]));
        }
        assert forall|x: int, y: int| 0 <= x < y < others.len() implies path_before(
            #[trigger] others[x],
            #[trigger] others[y],
        ) by {
            assert(path_before(other[x + 1], other[y + 1]));
        }
        lemma_ascending_unique(rest, others);
        assert(one =~= seq![a] + rest);
        assert(other =~= seq![b] + others);
    }
}

/// Puts one more path into paths in order, unless it is there.
fn insert_path(paths: &mut Vec<LocalPath>, path: &LocalPath)
    requires
        ascending(views(old(paths)@)),
    ensures
        ascending(views(final(paths)@)),
        forall|p: Seq<Seq<char>>|
            views(final(paths)@).contains(p) <==> (views(old(paths)@).contains(p) || p == path@),
{
    let ghost before = views(paths@);
    let mut pos: usize = 0;
    while pos < paths.len() && paths[pos].precedes(path)
        invariant
            pos <= paths.len(),
            before == views(paths@),
            forall|k: int| 0 <= k < pos ==> path_before(#[trigger] before[k], path@),
        decreases paths.len() - pos,
    {
        assert(before[pos as int] == paths@[pos as int]@);
        pos += 1;
    }
    if pos < paths.len() {
        assert(before[pos as int] == paths@[pos as int]@);
        if paths[pos].same(path) {
            assert(before.contains(path@));
            return ;
        }
    }
    paths.insert(pos, path.clone());
    proof {
        let now = views(paths@);
        assert(now =~= before.insert(pos as int, path@));
        if pos < before.len() {
            lemma_path_order(before[pos as int], path@);
        }
        assert forall|i: int, j: int| 0 <= i < j < now.len() implies path_before(
            #[trigger] now[i],
            #[trigger] now[j],
        ) by {
            if j < pos {
                assert(now[i] == before[i] && now[j] == before[j]);
            } else if j == pos {
                assert(now[i] == before[i]);
            } else if i == pos {
                assert(now[j] == before[j - 1]);
                if j - 1 > pos {
                    assert(path_before(before[pos as int], before[j - 1]));
                    lemma_path_transitive(path@, before[pos as int], before[j - 1]);
                }
            } else if i < pos {
                assert(now[i] == before[i] && now[j] == before[j - 1]);
                assert(path_before(before[i], before[j - 1]));
            } else {
                assert(now[i] == before[i - 1] && now[j] == before[j - 1]);
                assert(path_before(before[i - 1], before[j - 1]));
            }
        }
        assert forall|p: Seq<Seq<char>>| now.contains(p) <==> (before.contains(p) || p == path@) by {
            if now.contains(p) {
                let k = choose|k: int| 0 <= k < now.len() && now[k] == p;
                if k < pos {
                    assert(before[k] == p);
                } else if k > pos {
                    assert(before[k - 1] == p);
                }
            }
            if before.contains(p) {
                let k = choose|k: int| 0 <= k < before.len() && before[k] == p;
                if k < pos {
                    assert(now[k] == p);
                } else {
                    assert(now[k + 1] == p);
                }
            }
            if p == path@ {
                assert(now[pos as int] == p);
            }
        }
    }
}

/// The paths of the stamps that are to be listed, each once, in the order of
/// paths.
pub fn listing(stamps: &Vec<FileStamp>, all: bool, files: &Snapshot) -> (r: Vec<LocalPath>)
    ensures
        ascending(views(r@)),
        forall|p: Seq<Seq<char>>|
            views(r@).contains(p) <==> in_listing(views(stamps@), all, files@, p),
{
    let mut r: Vec<LocalPath> = Vec::new();
    let ghost given = views(stamps@);
    let mut i: usize = 0;
    assert forall|p: Seq<Seq<char>>| views(r@).contains(p) <==> in_listing(
        given.take(0),
        all,
        files@,
        p,
    ) by {
        if views(r@).contains(p) {
            let k = choose|k: int| 0 <= k < views(r@).len() && views(r@)[k] == p;
        }
    }
    while i < stamps.len()
        invariant
            i <= stamps.len(),
            given == views(stamps@),
            ascending(views(r@)),
            forall|p: Seq<Seq<char>>|
                views(r@).contains(p) <==> in_listing(given.take(i as int), all, files@, p),
        decreases stamps.len() - i,
    {
        let ghost done = given.take(i as int);
        let ghost upto = given.take(i + 1);
        let ghost had = views(r@);
        let path = &stamps[i].path;
        assert(given[i as int] == stamps@[i as int]@);
        let take = all || files.holds_path(path);
        if take {
            insert_path(&mut r, path);
        }
        proof {
            assert forall|p: Seq<Seq<char>>| views(r@).contains(p) <==> in_listing(
                upto,
                all,
                files@,
                p,
            ) by {
                if in_listing(upto, all, files@, p) {
                    let n = choose|n: int| 0 <= n < upto.len() && (#[trigger] upto[n]).path == p;
                    if n < i {
                        assert(done[n].path == p);
                        assert(in_listing(done, all, files@, p));
                    } else {
                        assert(upto[n] == given[i as int]);
                    }
                }
                if in_listing(done, all, files@, p) {
                    let n = choose|n: int| 0 <= n < done.len() && (#[trigger] done[n]).path == p;
                    assert(upto[n].path == p);
                }
                if p == path@ && take {
                    assert(upto[i as int].path == p);
                }
            }
        }
        i += 1;
    }
    assert(given.take(i as int) =~= given);
    r
}

/// The files that were used as sources: their paths, each once, in the order
/// of paths. With `all` unset, only those that exist are listed.
pub fn sources(graph: &DepGraph, all: bool, files: &Snapshot) -> (r: Vec<LocalPath>)
    ensures
        ascending(views(r@)),
        forall|p: Seq<Seq<char>>|
            views(r@).contains(p) <==> in_listing(
                crate::depgraph::all_sources(graph@),
                all,
                files@,
                p,
            ),
{
    let stamps = graph.sources();
    listing(&stamps, all, files)
}

/// The files that were produced: their paths, each once, in the order of
/// paths. With `all` unset, only those that exist are listed.
pub fn outputs(graph: &DepGraph, all: bool, files: &Snapshot) -> (r: Vec<LocalPath>)
    ensures
        ascending(views(r@)),
        forall|p: Seq<Seq<char>>|
            views(r@).contains(p) <==> in_listing(
                crate::depgraph::all_outputs(graph@),
                all,
                files@,
                p,
            ),
{
    let stamps = graph.outputs();
    listing(&stamps, all, files)
}

/// The line that says which glob belongs to which script.
pub open spec fn rule_line(r: RuleModel) -> Seq<char> {
    glob_text(r) + ": "@ + path_text(rule_path(r))
}

/// The line that says which script builds a target.
pub open spec fn target_line(target: Seq<Seq<char>>, job: JobModel) -> Seq<char> {
    path_text(target) + ": "@ + path_text(job.rule)
}

/// The view of an optional path.
pub open spec fn path_of(target: Option<LocalPath>) -> Option<Seq<Seq<char>>> {
    match target {
        Some(t) => Some(t@),
        None => None,
    }
}

/// Says which script builds `target`; without a target, lists every rule with
/// its glob, best rule first. `None` when no rule matches the target.
pub fn which_do(rules: &RuleSet, target: Option<LocalPath>) -> (r: Option<Vec<String>>)
    ensures
        target matches Some(t) ==> match chosen_job(rules@, t@) {
            Some(job) => r matches Some(lines) && views(lines@) == seq![target_line(t@, job)],
            None => r is None,
        },
        target is None ==> (r matches Some(lines) && lines@.len() == rules@.len() && forall|
            i: int,
        |
            0 <= i < lines@.len() ==> (#[trigger] lines@[i])@ == rule_line(rules@[i])),
{
    match target {
        Some(t) => {
            let mut line = t.to_chars();
            match rules.job_for(t) {
                Some(job) => {
                    push_str(&mut line, ": ");
                    let rule = job.rule.to_chars();
                    push_chars(&mut line, &rule);
                    let mut lines: Vec<String> = Vec::new();
                    let text = string_of(&line);
                    lines.push(text);
                    assert(views(lines@) =~= seq![text@]);
                    Some(lines)
                },
                None => None,
            }
        },
        None => {
            let pairs = rules.iter();
            let mut lines: Vec<String> = Vec::new();
            let mut i: usize = 0;
            while i < pairs.len()
                invariant
                    i <= pairs.len(),
                    pairs@.len() == rules@.len(),
                    forall|k: int|
                        0 <= k < pairs@.len() ==> (#[trigger] pairs@[k]).0@ == glob_text(rules@[k])
                            && pairs@[k].1@ == rule_path(rules@[k]),
                    lines@.len() == i,
                    forall|k: int| 0 <= k < i ==> (#[trigger] lines@[k])@ == rule_line(rules@[k]),
                decreases pairs.len() - i,
            {
                let mut line = chars_of(pairs[i].0.as_str());
                push_str(&mut line, ": ");
                let script = pairs[i].1.to_chars();
                push_chars(&mut line, &script);
                lines.push(string_of(&line));
                i += 1;
            }
            Some(lines)
        },
    }
}

/// What is said of a file that no recorded run produced.
pub open spec fn no_tree_text(path: Seq<Seq<char>>) -> Seq<char> {
    path_text(path) + ": No build tree found"@
}

/// Says how a file came about: the picture of the tree of runs that led to
/// it, or that there is none.
pub fn how_did(graph: &DepGraph, stamp: &FileStamp, rules: &RuleSet, obs: &Observation) -> (s:
    String)
    ensures
        (forall|i: int, k: int| !produced_at(graph@, stamp@, i, k)) ==> s@ == no_tree_text(
            stamp@.path,
        ),
        (exists|i: int, k: int| produced_at(graph@, stamp@, i, k)) ==> exists|t: TreeModel| #[trigger]
            explains(graph@, t, Set::<JobModel>::empty(), stamp@) && s@ == rows_text(
                outline_rows(outline_of(t, rules@, obs@, Seq::<JobModel>::empty()).0),
            ),
{
    match graph.some_tree_for(stamp) {
        Some(tree) => {
            let s = tree.to_string(rules, obs);
            proof {
                let nobody = Set::<JobModel>::empty();
                assert(explains(graph@, tree@, nobody, stamp@));
                let (a, b) = choose|a: int, b: int| #[trigger]
                    crate::depgraph::first_free_producer(graph@, stamp@, nobody, a, b) && tree@.job
                        == graph@[a].0 && crate::depgraph::records(
                        graph@,
                        graph@[a].1[b],
                        tree@,
                        nobody.insert(tree@.job),
                    );
                assert(produced_at(graph@, stamp@, a, b));
            }
            s
        },
        None => {
            let mut line = stamp.path.to_chars();
            push_str(&mut line, ": No build tree found");
            string_of(&line)
        },
    }
}

/// One line of the list of all traces: the job, whether it is still the job
/// chosen for its target, and the trace.
#[derive(Debug, PartialEq, Eq)]
pub struct TraceLine {
    pub job: String,
    pub valid: bool,
    pub trace: String,
}

/// What the question for the graph is answered with.
#[derive(Debug, PartialEq, Eq)]
pub enum GraphReport {
    /// The tree that makes the target reusable.
    Tree(Outline),
    /// All the traces, one to a line.
    Lines(Vec<TraceLine>),
}

/// Why the question for the graph has no answer.
#[derive(Clone, Copy, Debug, PartialEq, Eq, Structural)]
pub enum ReportError {
    /// No rule matches the target.
    NoRule,
    /// No recorded run of the target's job can be used again.
    NoValidTrace,
}

/// The graph that a report is made of: everything, or what is left when the
/// superseded jobs and the traces that are out of date are dropped.
pub open spec fn reported_graph(g: GraphModel, rules: Seq<RuleModel>, obs: ObsModel, all: bool) -> GraphModel {
    if all {
        g
    } else {
        current_entries(chosen_entries(g, rules), obs.files)
    }
}

/// The number of traces before each job of the graph.
pub open spec fn lines_before(g: GraphModel, i: int) -> int
    decreases i,
{
    if i <= 0 {
        0
    } else {
        lines_before(g, i - 1) + g[i - 1].1.len()
    }
}

/// Is the line the one for the `k`-th trace of the `i`-th job?
pub open spec fn line_shows(
    line: TraceLine,
    g: GraphModel,
    rules: Seq<RuleModel>,
    obs: ObsModel,
    i: int,
    k: int,
) -> bool {
    &&& line.job@ == job_text(g[i].0)
    &&& line.valid == (chosen_job(rules, g[i].0.target) == Some(g[i].0))
    &&& line.trace@ == trace_summary(g[i].1[k], obs.now)
}

/// Answers the question for the graph. With a target: the tree that makes the
/// target reusable. Without: every trace. Unless `all` is set, superseded jobs
/// and traces that are out of date are left out first.
pub fn dep_graph(
    graph: DepGraph,
    rules: &RuleSet,
    obs: &Observation,
    target: Option<LocalPath>,
    all: bool,
) -> (r: Result<GraphReport, ReportError>)
    ensures
        target matches Some(t) ==> match chosen_job(rules@, t@) {
            None => r == Err::<GraphReport, ReportError>(ReportError::NoRule),
            Some(job) => match r {
                Ok(GraphReport::Tree(o)) => exists|tree: TreeModel| #[trigger]
                    valid_tree(
                        reported_graph(graph@, rules@, obs@, all),
                        obs@,
                        tree,
                        Set::<JobModel>::empty(),
                    ) && tree.job == job && o@ == outline_of(
                        tree,
                        rules@,
                        obs@,
                        Seq::<JobModel>::empty(),
                    ).0,
                Ok(GraphReport::Lines(_)) => false,
                Err(e) => e == ReportError::NoValidTrace && forall|tree: TreeModel|
                    tree.job == job ==> !valid_tree(
                        reported_graph(graph@, rules@, obs@, all),
                        obs@,
                        tree,
                        Set::<JobModel>::empty(),
                    ),
            },
        },
        target is None ==> (r matches Ok(GraphReport::Lines(lines)) && {
            let g = reported_graph(graph@, rules@, obs@, all);
            &&& lines@.len() == lines_before(g, g.len() as int)
            &&& forall|i: int, k: int|
                0 <= i < g.len() && 0 <= k < g[i].1.len() ==> line_shows(
                    #[trigger] lines@[lines_before(g, i) + k],
                    g,
                    rules@,
                    obs@,
                    i,
                    k,
                )
        }),
{
    let ghost given = graph@;
    let mut graph = graph;
    if !all {
        graph.drop_superseded(rules);
        graph.drop_out_of_date(&obs.files);
    }
    let ghost g = graph@;
    assert(g == reported_graph(given, rules@, obs@, all));
    match target {
        Some(t) => {
            let job = match rules.job_for(t) {
                Some(job) => job,
                None => {
                    return Err(ReportError::NoRule);
                },
            };
            match graph.valid_trace_for(&job, obs) {
                Some(tree) => {
                    let o = tree.outline(rules, obs);
                    assert(valid_tree(g, obs@, tree@, Set::<JobModel>::empty()));
                    Ok(GraphReport::Tree(o))
                },
                None => Err(ReportError::NoValidTrace),
            }
        },
        None => {
            let mut lines: Vec<TraceLine> = Vec::new();
            let mut i: usize = 0;
            while i < graph.traces.len()
                invariant
                    i <= graph.traces.len(),
                    g == graph@,
                    lines@.len() == lines_before(g, i as int),
                    forall|a: int, b: int|
                        0 <= a < i && 0 <= b < g[a].1.len() ==> line_shows(
                            #[trigger] lines@[lines_before(g, a) + b],
                            g,
                            rules@,
                            obs@,
                            a,
                            b,
                        ),
                decreases graph.traces.len() - i,
            {
                let job = &graph.traces[i].0;
                let runs = &graph.traces[i].1;
                assert(g[i as int].0 == job@);
                assert(g[i as int].1 == views(runs@));
                let ghost base = lines_before(g, i as int);
                proof {
                    lemma_lines_nonnegative(g, i as int);
                }
                let shown = job.fancy(rules);
                let mut k: usize = 0;
                while k < runs.len()
                    invariant
                        k <= runs.len(),
                        i < graph.traces.len(),
                        g == graph@,
                        g[i as int].0 == job@,
                        g[i as int].1 == views(runs@),
                        base == lines_before(g, i as int),
                        base >= 0,
                        shown.0@ == job_text(job@),
                        shown.1 == (chosen_job(rules@, job@.target) == Some(job@)),
                        lines@.len() == base + k,
                        forall|a: int, b: int|
                            0 <= a < i && 0 <= b < g[a].1.len() ==> line_shows(
                                #[trigger] lines@[lines_before(g, a) + b],
                                g,
                                rules@,
                                obs@,
                                a,
                                b,
                            ),
                        forall|b: int|
                            0 <= b < k ==> line_shows(
                                #[trigger] lines@[base + b],
                                g,
                                rules@,
                                obs@,
                                i as int,
                                b,
                            ),
                    decreases runs.len() - k,
                {
                    assert(g[i as int].1[k as int] == runs@[k as int]@);
                    let ghost had = lines@;
                    assert(had.len() == base + k);
                    let line = TraceLine {
                        job: shown.0.clone(),
                        valid: shown.1,
                        trace: runs[k].to_string(&obs.now),
                    };
                    lines.push(line);
                    proof {
                        assert forall|a: int, b: int|
                            0 <= a < i && 0 <= b < g[a].1.len() implies line_shows(
                            #[trigger] lines@[lines_before(g, a) + b],
                            g,
                            rules@,
                            obs@,
                            a,
                            b,
                        ) by {
                            lemma_lines_before(g, a, i as int);
                            assert(lines@[lines_before(g, a) + b] == had[lines_before(g, a) + b]);
                        }
                        assert forall|b: int| 0 <= b < k + 1 implies line_shows(
                            #[trigger] lines@[base + b],
                            g,
                            rules@,
                            obs@,
                            i as int,
                            b,
                        ) by {
                            if b < k {
                                assert(lines@[base + b] == had[base + b]);
                            }
                        }
                    }
                    k += 1;
                }
                i += 1;
            }
            Ok(GraphReport::Lines(lines))
        },
    }
}

/// The lines of an earlier job end before those of a later one begin.
pub proof fn lemma_lines_before(g: GraphModel, a: int, i: int)
    requires
        0 <= a < i <= g.len(),
    ensures
        lines_before(g, a) + g[a].1.len() <= lines_before(g, i),
        lines_before(g, a) >= 0,
    decreases i,
{
    lemma_lines_nonnegative(g, a);
    if a + 1 < i {
        lemma_lines_before(g, a, i - 1);
    }
}

/// No job has a negative number of lines before it.
pub proof fn lemma_lines_nonnegative(g: GraphModel, i: int)
    ensures
        lines_before(g, i) >= 0,
    decreases i,
{
    if i > 0 {
        lemma_lines_nonnegative(g, i - 1);
    }
}

} // verus!
