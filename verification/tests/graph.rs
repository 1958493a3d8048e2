use redux::build_id::BuildId;
use redux::depgraph::{is_usable, BuildTree, DepGraph, Observation};
use redux::error::ParseError;
use redux::filestamp::{FileStamp, Snapshot};
use redux::job::JobSpec;
use redux::local_path::LocalPath;
use redux::ruleset::{Rule, RuleSet};
use redux::timestamp::Timestamp;
use redux::trace::Trace;

fn gp(s: &str) -> LocalPath {
    LocalPath::from_str(s).unwrap()
}

fn gs(path: &str, contents: &[u8]) -> FileStamp {
    FileStamp::new(gp(path), contents)
}

fn gj(rule: &str, target: &str) -> JobSpec {
    JobSpec { rule: gp(rule), target: gp(target), env: vec![] }
}

fn run(sources: Vec<FileStamp>, intermediates: Vec<FileStamp>, outputs: Vec<FileStamp>) -> Trace {
    let mut t = Trace::default();
    t.sources = sources;
    t.intermediates = intermediates;
    t.outputs = outputs;
    t
}

fn seen(now: u64, build: Option<u128>, files: Vec<FileStamp>) -> Observation {
    let mut snap = Snapshot::new();
    for f in files {
        snap.record(f);
    }
    Observation { now: Timestamp { secs: now, nanos: 0 }, build_id: build.map(BuildId), files: snap }
}

/// `app` is linked from `lib.o`, which is compiled from `lib.c`.
fn chain() -> DepGraph {
    let mut g = DepGraph::new();
    g.insert(
        gj("lib.o.do", "lib.o"),
        run(vec![gs("lib.o.do", b"cc"), gs("lib.c", b"code")], vec![], vec![gs("lib.o", b"obj")]),
    );
    g.insert(
        gj("app.do", "app"),
        run(vec![gs("app.do", b"ld")], vec![gs("lib.o", b"obj")], vec![gs("app", b"bin")]),
    );
    g
}

fn chain_files() -> Vec<FileStamp> {
    vec![gs("lib.o.do", b"cc"), gs("lib.c", b"code"), gs("app.do", b"ld")]
}

#[test]
fn run_with_unchanged_sources_is_reusable() {
    let g = chain();
    let tree = g.valid_trace_for(&gj("lib.o.do", "lib.o"), &seen(0, None, chain_files())).unwrap();
    assert_eq!(tree.job, gj("lib.o.do", "lib.o"));
    assert_eq!(tree.sources, vec![gs("lib.o.do", b"cc"), gs("lib.c", b"code")]);
    assert_eq!(tree.outputs, vec![gs("lib.o", b"obj")]);
    assert!(tree.intermediates.is_empty());
    assert_eq!(tree.valid_until, None);
}

#[test]
fn tree_records_the_runs_of_generated_dependencies() {
    let g = chain();
    let tree = g.valid_trace_for(&gj("app.do", "app"), &seen(0, None, chain_files())).unwrap();
    assert_eq!(tree.intermediates.len(), 1);
    assert_eq!(tree.intermediates[0].0, gs("lib.o", b"obj"));
    assert_eq!(tree.intermediates[0].1.job, gj("lib.o.do", "lib.o"));
    assert_eq!(tree.intermediates[0].1.outputs, vec![gs("lib.o", b"obj")]);
}

#[test]
fn changed_source_makes_a_run_unusable() {
    let g = chain();
    let files = vec![gs("lib.o.do", b"cc"), gs("lib.c", b"edited"), gs("app.do", b"ld")];
    assert_eq!(g.valid_trace_for(&gj("lib.o.do", "lib.o"), &seen(0, None, files)), None);
}

#[test]
fn changed_source_below_makes_the_run_above_unusable() {
    let g = chain();
    let files = vec![gs("lib.o.do", b"cc"), gs("lib.c", b"edited"), gs("app.do", b"ld")];
    assert_eq!(g.valid_trace_for(&gj("app.do", "app"), &seen(0, None, files)), None);
}

#[test]
fn missing_source_makes_a_run_unusable() {
    let g = chain();
    let files = vec![gs("lib.o.do", b"cc"), gs("app.do", b"ld")];
    assert_eq!(g.valid_trace_for(&gj("lib.o.do", "lib.o"), &seen(0, None, files)), None);
}

#[test]
fn unknown_job_has_no_run() {
    let g = chain();
    assert_eq!(g.valid_trace_for(&gj("other.do", "other"), &seen(0, None, chain_files())), None);
    assert_eq!(DepGraph::new().valid_trace_for(&gj("app.do", "app"), &seen(0, None, vec![])), None);
}

#[test]
fn generated_dependency_without_a_run_makes_the_run_unusable() {
    let mut g = DepGraph::new();
    g.insert(
        gj("app.do", "app"),
        run(vec![gs("app.do", b"ld")], vec![gs("lib.o", b"obj")], vec![gs("app", b"bin")]),
    );
    assert_eq!(g.valid_trace_for(&gj("app.do", "app"), &seen(0, None, chain_files())), None);
}

#[test]
fn any_usable_run_of_several_will_do() {
    let mut g = DepGraph::new();
    let job = gj("a.do", "a");
    g.insert(job.clone(), run(vec![gs("in", b"old")], vec![], vec![gs("a", b"from old")]));
    g.insert(job.clone(), run(vec![gs("in", b"new")], vec![], vec![gs("a", b"from new")]));
    let tree = g.valid_trace_for(&job, &seen(0, None, vec![gs("in", b"new")])).unwrap();
    assert_eq!(tree.outputs, vec![gs("a", b"from new")]);
    let tree = g.valid_trace_for(&job, &seen(0, None, vec![gs("in", b"old")])).unwrap();
    assert_eq!(tree.outputs, vec![gs("a", b"from old")]);
    assert_eq!(g.valid_trace_for(&job, &seen(0, None, vec![gs("in", b"else")])), None);
}

#[test]
fn valid_until_in_the_past_is_not_reusable() {
    let mut g = DepGraph::new();
    let mut t = run(vec![], vec![], vec![gs("a", b"x")]);
    t.valid_until = Some(Timestamp { secs: 1000, nanos: 0 });
    g.insert(gj("a.do", "a"), t);
    let job = gj("a.do", "a");
    assert_eq!(g.valid_trace_for(&job, &seen(1001, None, vec![])), None);
    let tree = g.valid_trace_for(&job, &seen(999, None, vec![])).unwrap();
    assert_eq!(tree.valid_until, Some(Timestamp { secs: 1000, nanos: 0 }));
    assert!(g.valid_trace_for(&job, &seen(1000, None, vec![])).is_some());
}

#[test]
fn valid_for_another_build_is_not_reusable() {
    let mut g = DepGraph::new();
    let mut t = run(vec![], vec![], vec![gs("a", b"x")]);
    t.valid_for = Some(BuildId(1));
    g.insert(gj("a.do", "a"), t);
    let job = gj("a.do", "a");
    assert_eq!(g.valid_trace_for(&job, &seen(0, Some(2), vec![])), None);
    assert_eq!(g.valid_trace_for(&job, &seen(0, None, vec![])), None);
    assert!(g.valid_trace_for(&job, &seen(0, Some(1), vec![])).is_some());
}

#[test]
fn volatile_dependency_makes_the_run_above_unusable() {
    let mut g = chain();
    let mut again = run(vec![gs("gen.do", b"g")], vec![], vec![gs("gen", b"now")]);
    again.valid_for = Some(BuildId(1));
    g.insert(gj("gen.do", "gen"), again);
    g.insert(
        gj("top.do", "top"),
        run(vec![gs("top.do", b"t")], vec![gs("gen", b"now")], vec![gs("top", b"out")]),
    );
    let mut files = chain_files();
    files.push(gs("gen.do", b"g"));
    files.push(gs("top.do", b"t"));
    assert!(g.valid_trace_for(&gj("top.do", "top"), &seen(0, Some(1), files.clone())).is_some());
    assert_eq!(g.valid_trace_for(&gj("top.do", "top"), &seen(0, Some(2), files)), None);
}

#[test]
fn usable_says_what_the_trace_alone_can_tell() {
    let mut t = run(vec![gs("in", b"1")], vec![gs("never built", b"")], vec![]);
    t.valid_until = Some(Timestamp { secs: 50, nanos: 0 });
    t.valid_for = Some(BuildId(9));
    assert!(is_usable(&t, &seen(50, Some(9), vec![gs("in", b"1")])));
    assert!(!is_usable(&t, &seen(51, Some(9), vec![gs("in", b"1")])));
    assert!(!is_usable(&t, &seen(50, Some(8), vec![gs("in", b"1")])));
    assert!(!is_usable(&t, &seen(50, Some(9), vec![gs("in", b"2")])));
}

#[test]
fn job_that_depends_on_itself_is_not_reusable() {
    let mut g = DepGraph::new();
    g.insert(gj("a.do", "a"), run(vec![], vec![gs("b", b"b")], vec![gs("a", b"a")]));
    g.insert(gj("b.do", "b"), run(vec![], vec![gs("a", b"a")], vec![gs("b", b"b")]));
    assert_eq!(g.valid_trace_for(&gj("a.do", "a"), &seen(0, None, vec![])), None);
    assert_eq!(g.valid_trace_for(&gj("b.do", "b"), &seen(0, None, vec![])), None);
}

#[test]
fn cycle_is_no_obstacle_where_another_run_produces_the_file() {
    let mut g = DepGraph::new();
    g.insert(gj("a.do", "a"), run(vec![], vec![gs("b", b"b")], vec![gs("a", b"a")]));
    g.insert(gj("b.do", "b"), run(vec![], vec![gs("a", b"a")], vec![gs("b", b"b")]));
    g.insert(gj("b.do", "b"), run(vec![], vec![], vec![gs("b", b"b")]));
    let tree = g.valid_trace_for(&gj("a.do", "a"), &seen(0, None, vec![])).unwrap();
    assert_eq!(tree.intermediates[0].1.job, gj("b.do", "b"));
    assert!(tree.intermediates[0].1.intermediates.is_empty());
}

#[test]
fn shared_dependency_is_checked_for_each_use() {
    let mut g = chain();
    g.insert(
        gj("both.do", "both"),
        run(
            vec![],
            vec![gs("lib.o", b"obj"), gs("app", b"bin")],
            vec![gs("both", b"2")],
        ),
    );
    let tree = g.valid_trace_for(&gj("both.do", "both"), &seen(0, None, chain_files())).unwrap();
    assert_eq!(tree.intermediates.len(), 2);
    assert_eq!(tree.intermediates[0].1.job, gj("lib.o.do", "lib.o"));
    assert_eq!(tree.intermediates[1].1.job, gj("app.do", "app"));
    assert_eq!(tree.intermediates[1].1.intermediates[0].1.job, gj("lib.o.do", "lib.o"));
}

#[test]
fn valid_tree_stays_valid_when_the_graph_grows() {
    let g = chain();
    let obs = seen(0, None, chain_files());
    let before = g.valid_trace_for(&gj("app.do", "app"), &obs).unwrap();
    let mut bigger = chain();
    bigger.insert(gj("zzz.do", "zzz"), run(vec![gs("nope", b"")], vec![], vec![gs("zzz", b"")]));
    bigger.insert(gj("lib.o.do", "lib.o"), run(vec![gs("lib.c", b"other")], vec![], vec![gs("lib.o", b"obj")]));
    let after = bigger.valid_trace_for(&gj("app.do", "app"), &obs).unwrap();
    assert_eq!(after, before);
}

#[test]
fn one_trace_can_be_checked_alone() {
    let g = chain();
    let t = run(vec![gs("x", b"1")], vec![gs("lib.o", b"obj")], vec![gs("y", b"2")]);
    let mut files = chain_files();
    files.push(gs("x", b"1"));
    let tree = g.is_trace_valid(&gj("y.do", "y"), &t, &seen(0, None, files)).unwrap();
    assert_eq!(tree.job, gj("y.do", "y"));
    assert_eq!(tree.intermediates[0].1.job, gj("lib.o.do", "lib.o"));
    assert_eq!(g.is_trace_valid(&gj("y.do", "y"), &t, &seen(0, None, chain_files())), None);
}

#[test]
fn insert_keeps_each_trace_once() {
    let mut g = DepGraph::new();
    let t = run(vec![gs("in", b"1")], vec![], vec![gs("a", b"x")]);
    g.insert(gj("a.do", "a"), t.clone());
    g.insert(gj("a.do", "a"), t.clone());
    assert_eq!(g.len(), 1);
    g.insert(gj("a.do", "a"), run(vec![gs("in", b"2")], vec![], vec![gs("a", b"y")]));
    assert_eq!(g.len(), 2);
    assert_eq!(g.traces.len(), 1);
    g.insert(gj("b.do", "b"), t);
    assert_eq!(g.len(), 3);
    assert_eq!(g.traces.len(), 2);
}

#[test]
fn load_reads_every_trace_file() {
    let one = format!(
        "job lib.o.do(lib.o)\nsource {}\nproduced {}\n",
        gs("lib.c", b"code").to_string(),
        gs("lib.o", b"obj").to_string()
    );
    let two = format!(
        "job app.do(app)\ngenerated {}\nproduced {}\n",
        gs("lib.o", b"obj").to_string(),
        gs("app", b"bin").to_string()
    );
    let g = DepGraph::load_all(&vec![one.clone(), two, one]).unwrap();
    assert_eq!(g.len(), 2);
    let tree = g.valid_trace_for(&gj("app.do", "app"), &seen(0, None, vec![gs("lib.c", b"code")]));
    assert!(tree.is_some());
}

#[test]
fn load_fails_on_what_is_no_trace_file() {
    let r = DepGraph::load_all(&vec!["job a.do(a)\n".to_string(), "junk".to_string()]);
    assert_eq!(r, Err(ParseError::MissingHeader));
}

#[test]
fn superseded_jobs_are_dropped() {
    let mut g = DepGraph::new();
    g.insert(gj("default.c.do", "src/foo.c"), run(vec![], vec![], vec![gs("src/foo.c", b"1")]));
    g.insert(gj("default.c.do", "lib/bar.c"), run(vec![], vec![], vec![gs("lib/bar.c", b"2")]));
    let rules = RuleSet::new(vec![
        Rule::new(&gp("default.c.do")).unwrap(),
        Rule::new(&gp("src/default.c.do")).unwrap(),
    ])
    .unwrap();
    let dropped = g.drop_superseded(&rules);
    assert_eq!(dropped, 1);
    assert_eq!(g.traces.len(), 1);
    assert_eq!(g.traces[0].0, gj("default.c.do", "lib/bar.c"));
}

#[test]
fn load_with_rules_drops_superseded_jobs() {
    let text = format!("job default.c.do(src/foo.c)\nproduced {}\n", gs("src/foo.c", b"1").to_string());
    let old = RuleSet::new(vec![Rule::new(&gp("default.c.do")).unwrap()]).unwrap();
    let new = RuleSet::new(vec![
        Rule::new(&gp("default.c.do")).unwrap(),
        Rule::new(&gp("src/default.c.do")).unwrap(),
    ])
    .unwrap();
    assert_eq!(DepGraph::load(&vec![text.clone()], &old).unwrap().len(), 1);
    assert_eq!(DepGraph::load(&vec![text], &new).unwrap().len(), 0);
}

#[test]
fn traces_out_of_date_are_dropped() {
    let mut g = DepGraph::new();
    g.insert(gj("a.do", "a"), run(vec![gs("in", b"old")], vec![], vec![gs("a", b"1")]));
    g.insert(gj("a.do", "a"), run(vec![gs("in", b"new")], vec![], vec![gs("a", b"2")]));
    g.insert(gj("b.do", "b"), run(vec![gs("gone", b"x")], vec![], vec![gs("b", b"3")]));
    let mut files = Snapshot::new();
    files.record(gs("in", b"new"));
    let dropped = g.drop_out_of_date(&files);
    assert_eq!(dropped, 2);
    assert_eq!(g.traces.len(), 1);
    assert_eq!(g.traces[0].1.len(), 1);
    assert_eq!(g.traces[0].1[0].outputs, vec![gs("a", b"2")]);
}

#[test]
fn sources_and_outputs_list_every_stamp() {
    let g = chain();
    assert_eq!(
        g.sources(),
        vec![gs("lib.o.do", b"cc"), gs("lib.c", b"code"), gs("app.do", b"ld")]
    );
    assert_eq!(g.outputs(), vec![gs("lib.o", b"obj"), gs("app", b"bin")]);
    assert!(DepGraph::new().sources().is_empty());
}

#[test]
fn runs_producing_finds_every_producer() {
    let mut g = chain();
    g.insert(gj("app.do", "app"), run(vec![], vec![], vec![gs("x", b""), gs("lib.o", b"obj")]));
    assert_eq!(g.runs_producing(&gs("lib.o", b"obj")), vec![(0, 0), (1, 1)]);
    assert_eq!(g.runs_producing(&gs("lib.o", b"other")), vec![]);
}

#[test]
fn some_tree_explains_without_checking() {
    let g = chain();
    let tree: BuildTree = g.some_tree_for(&gs("app", b"bin")).unwrap();
    assert_eq!(tree.job, gj("app.do", "app"));
    assert_eq!(tree.intermediates.len(), 1);
    assert_eq!(tree.intermediates[0].1.job, gj("lib.o.do", "lib.o"));
    assert_eq!(g.some_tree_for(&gs("app", b"other")), None);
}

#[test]
fn some_tree_leaves_out_what_no_run_produced() {
    let mut g = DepGraph::new();
    g.insert(
        gj("app.do", "app"),
        run(vec![], vec![gs("lost", b"1"), gs("kept", b"2")], vec![gs("app", b"bin")]),
    );
    g.insert(gj("kept.do", "kept"), run(vec![], vec![], vec![gs("kept", b"2")]));
    let tree = g.some_tree_for(&gs("app", b"bin")).unwrap();
    assert_eq!(tree.intermediates.len(), 1);
    assert_eq!(tree.intermediates[0].0, gs("kept", b"2"));
}

#[test]
fn some_tree_ends_at_a_cycle() {
    let mut g = DepGraph::new();
    g.insert(gj("a.do", "a"), run(vec![], vec![gs("b", b"b")], vec![gs("a", b"a")]));
    g.insert(gj("b.do", "b"), run(vec![], vec![gs("a", b"a")], vec![gs("b", b"b")]));
    let tree = g.some_tree_for(&gs("a", b"a")).unwrap();
    assert_eq!(tree.intermediates.len(), 1);
    assert!(tree.intermediates[0].1.intermediates.is_empty());
}

#[test]
fn tree_can_be_copied() {
    let g = chain();
    let tree = g.valid_trace_for(&gj("app.do", "app"), &seen(0, None, chain_files())).unwrap();
    let copy = tree.clone();
    assert_eq!(copy, tree);
    assert_eq!(copy.intermediates[0].1.sources, tree.intermediates[0].1.sources);
}

#[test]
fn default_graph_is_empty() {
    assert_eq!(DepGraph::default(), DepGraph::new());
    assert_eq!(DepGraph::default().len(), 0);
}

#[test]
fn no_job_and_no_trace_stands_twice() {
    let one = format!("job a.do(a)\nsource {}\nproduced {}\n", gs("in", b"1").to_string(), gs("a", b"x").to_string());
    let two = format!("job a.do(a)\nsource {}\nproduced {}\n", gs("in", b"2").to_string(), gs("a", b"y").to_string());
    let three = format!("job b.do(b)\nproduced {}\n", gs("b", b"z").to_string());
    let g = DepGraph::load_all(&vec![one.clone(), three.clone(), two.clone(), one, three, two]).unwrap();
    assert_eq!(g.traces.len(), 2);
    assert_eq!(g.len(), 3);
    for (i, entry) in g.traces.iter().enumerate() {
        assert!(!entry.1.is_empty());
        for other in &g.traces[i + 1..] {
            assert_ne!(entry.0, other.0);
        }
        for (k, t) in entry.1.iter().enumerate() {
            assert!(!entry.1[k + 1..].contains(t));
        }
    }
}

#[test]
fn dropping_counts_what_is_gone() {
    let mut g = chain();
    let before = g.len();
    let mut files = Snapshot::new();
    files.record(gs("app.do", b"ld"));
    let dropped = g.drop_out_of_date(&files);
    assert_eq!(dropped, 1);
    assert_eq!(g.len(), before - dropped);
    assert_eq!(g.drop_out_of_date(&files), 0);
    let none = RuleSet::new(vec![]).unwrap();
    assert_eq!(g.drop_superseded(&none), 1);
    assert_eq!(g.len(), 0);
}
