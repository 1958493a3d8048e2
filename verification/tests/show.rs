use redux::build_id::BuildId;
use redux::depgraph::{DepGraph, Observation};
use redux::display::{render, Outline};
use redux::filestamp::{FileStamp, Snapshot};
use redux::job::{EnvVar, JobSpec};
use redux::local_path::LocalPath;
use redux::report::{
    dep_graph, how_did, listing, outputs, sources, which_do, GraphReport, ReportError, TraceLine,
};
use redux::ruleset::{Rule, RuleSet};
use redux::timestamp::Timestamp;
use redux::trace::Trace;

fn sp(s: &str) -> LocalPath {
    LocalPath::from_str(s).unwrap()
}

fn ss(path: &str, contents: &[u8]) -> FileStamp {
    FileStamp::new(sp(path), contents)
}

fn sj(rule: &str, target: &str) -> JobSpec {
    JobSpec { rule: sp(rule), target: sp(target), env: vec![] }
}

fn short(path: &str, contents: &[u8]) -> String {
    format!("{}@{}", path, &blake3::hash(contents).to_hex()[..8])
}

fn made(sources: Vec<FileStamp>, intermediates: Vec<FileStamp>, outputs: Vec<FileStamp>) -> Trace {
    let mut t = Trace::default();
    t.sources = sources;
    t.intermediates = intermediates;
    t.outputs = outputs;
    t
}

fn at(now: u64, files: Vec<FileStamp>) -> Observation {
    let mut snap = Snapshot::new();
    for f in files {
        snap.record(f);
    }
    Observation { now: Timestamp { secs: now, nanos: 0 }, build_id: None, files: snap }
}

fn ruleset(scripts: &[&str]) -> RuleSet {
    RuleSet::new(scripts.iter().map(|s| Rule::new(&sp(s)).unwrap()).collect()).unwrap()
}

fn leaf(label: &str) -> Outline {
    Outline { label: label.to_string(), valid: true, children: vec![] }
}

fn two_steps() -> DepGraph {
    let mut g = DepGraph::new();
    g.insert(sj("lib.o.do", "lib.o"), made(vec![ss("lib.c", b"code")], vec![], vec![ss("lib.o", b"obj")]));
    g.insert(
        sj("app.do", "app"),
        made(vec![ss("main.c", b"main")], vec![ss("lib.o", b"obj")], vec![ss("app", b"bin")]),
    );
    g
}

#[test]
fn trace_on_one_line() {
    let mut t = made(vec![ss("a.do", b"r"), ss("in", b"i")], vec![ss("gen", b"g")], vec![ss("a", b"o")]);
    t.env_vars.push(EnvVar { key: "K".to_string(), val: "v".to_string() });
    let now = Timestamp { secs: 0, nanos: 0 };
    assert_eq!(
        t.to_string(&now),
        format!(
            "{} {} {} => {}K=v ",
            short("a.do", b"r"),
            short("in", b"i"),
            short("gen", b"g"),
            short("a", b"o")
        )
    );
}

#[test]
fn empty_trace_on_one_line() {
    assert_eq!(Trace::default().to_string(&Timestamp { secs: 0, nanos: 0 }), "=>");
}

#[test]
fn volatile_trace_says_so() {
    let mut t = Trace::default();
    t.valid_for = Some(BuildId(1));
    assert_eq!(t.to_string(&Timestamp { secs: 0, nanos: 0 }), "=> (volatile)");
}

#[test]
fn trace_says_how_long_it_is_cached() {
    let mut t = Trace::default();
    t.valid_until = Some(Timestamp { secs: 10000, nanos: 0 });
    assert_eq!(
        t.to_string(&Timestamp { secs: 580, nanos: 0 }),
        "=> (cached for another 2h 37m)"
    );
}

#[test]
fn time_left_saturates_at_zero() {
    let mut t = Trace::default();
    t.valid_until = Some(Timestamp { secs: 100, nanos: 0 });
    assert_eq!(
        t.to_string(&Timestamp { secs: 5000, nanos: 0 }),
        "=> (cached for another 0s)"
    );
}

#[test]
fn picture_of_a_single_label() {
    assert_eq!(render(&leaf("root")), "root\n");
}

#[test]
fn picture_of_a_tree() {
    let tree = Outline {
        label: "root".to_string(),
        valid: true,
        children: vec![
            Outline { label: "a".to_string(), valid: true, children: vec![leaf("a1"), leaf("a2")] },
            Outline { label: "b".to_string(), valid: false, children: vec![leaf("b1")] },
        ],
    };
    assert_eq!(
        render(&tree),
        "root\n├── a\n│   ├── a1\n│   └── a2\n└── b\n    └── b1\n"
    );
}

#[test]
fn label_of_a_tree() {
    let g = two_steps();
    let tree = g.some_tree_for(&ss("app", b"bin")).unwrap();
    assert_eq!(
        tree.label(&Timestamp { secs: 0, nanos: 0 }),
        format!("{} <= app.do(app)", short("app", b"bin"))
    );
}

#[test]
fn label_says_how_long_in_one_word() {
    let mut g = DepGraph::new();
    let mut t = made(vec![], vec![], vec![ss("a", b"x")]);
    t.valid_until = Some(Timestamp { secs: 10000, nanos: 0 });
    g.insert(sj("a.do", "a"), t);
    let tree = g.some_tree_for(&ss("a", b"x")).unwrap();
    assert_eq!(
        tree.label(&Timestamp { secs: 580, nanos: 0 }),
        format!("{} <= a.do(a) (cached for another 2h)", short("a", b"x"))
    );
}

#[test]
fn outline_of_a_tree() {
    let g = two_steps();
    let rules = ruleset(&["app.do"]);
    let obs = at(0, vec![ss("main.c", b"main"), ss("lib.c", b"edited")]);
    let o = g.some_tree_for(&ss("app", b"bin")).unwrap().outline(&rules, &obs);
    assert_eq!(o.label, format!("{} <= app.do(app)", short("app", b"bin")));
    assert!(o.valid);
    assert_eq!(o.children.len(), 2);
    assert_eq!(o.children[0], Outline { label: short("main.c", b"main"), valid: true, children: vec![] });
    let lib = &o.children[1];
    assert_eq!(lib.label, format!("{} <= lib.o.do(lib.o)", short("lib.o", b"obj")));
    assert!(!lib.valid);
    assert_eq!(
        lib.children,
        vec![Outline { label: short("lib.c", b"code"), valid: false, children: vec![] }]
    );
}

#[test]
fn job_is_shown_in_full_only_once() {
    let mut g = two_steps();
    g.insert(
        sj("both.do", "both"),
        made(vec![], vec![ss("lib.o", b"obj"), ss("app", b"bin")], vec![ss("both", b"2")]),
    );
    let rules = ruleset(&[]);
    let o = g.some_tree_for(&ss("both", b"2")).unwrap().outline(&rules, &at(0, vec![]));
    assert_eq!(o.children.len(), 2);
    assert_eq!(o.children[0].children.len(), 1);
    let app = &o.children[1];
    assert_eq!(app.children.len(), 2);
    let again = &app.children[1];
    assert_eq!(again.label, format!("{} <= lib.o.do(lib.o) (see above)", short("lib.o", b"obj")));
    assert!(again.children.is_empty());
}

#[test]
fn tree_as_a_picture() {
    let g = two_steps();
    let rules = ruleset(&["app.do", "lib.o.do"]);
    let text = g.some_tree_for(&ss("app", b"bin")).unwrap().to_string(&rules, &at(0, vec![]));
    assert_eq!(
        text,
        format!(
            "{} <= app.do(app)\n├── {}\n└── {} <= lib.o.do(lib.o)\n    └── {}\n",
            short("app", b"bin"),
            short("main.c", b"main"),
            short("lib.o", b"obj"),
            short("lib.c", b"code")
        )
    );
}

#[test]
fn how_did_draws_the_tree_or_says_there_is_none() {
    let g = two_steps();
    let rules = ruleset(&[]);
    let obs = at(0, vec![]);
    assert_eq!(
        how_did(&g, &ss("lib.o", b"obj"), &rules, &obs),
        format!("{} <= lib.o.do(lib.o)\n└── {}\n", short("lib.o", b"obj"), short("lib.c", b"code"))
    );
    assert_eq!(how_did(&g, &ss("lib.o", b"else"), &rules, &obs), "lib.o: No build tree found");
}

#[test]
fn which_do_names_the_script_of_a_target() {
    let rules = ruleset(&["default.do", "src/default.c.do"]);
    assert_eq!(
        which_do(&rules, Some(sp("src/a.c"))),
        Some(vec!["src/a.c: src/default.c.do".to_string()])
    );
    assert_eq!(which_do(&ruleset(&["a.do"]), Some(sp("b"))), None);
}

#[test]
fn which_do_lists_the_rules() {
    let rules = ruleset(&["default.do", "src/default.c.do"]);
    assert_eq!(
        which_do(&rules, None),
        Some(vec!["src/**/*.c: src/default.c.do".to_string(), "**/*: default.do".to_string()])
    );
    assert_eq!(which_do(&ruleset(&[]), None), Some(vec![]));
}

#[test]
fn listing_names_each_path_once() {
    let stamps = vec![ss("b", b"1"), ss("a", b"1"), ss("b", b"2"), ss("gone", b"3")];
    let mut files = Snapshot::new();
    files.record(ss("a", b"now"));
    files.record(ss("b", b"now"));
    assert_eq!(listing(&stamps, true, &files), vec![sp("a"), sp("b"), sp("gone")]);
    assert_eq!(listing(&stamps, false, &files), vec![sp("a"), sp("b")]);
    assert_eq!(listing(&vec![], true, &files), vec![]);
}

#[test]
fn sources_and_outputs_of_the_graph_are_listed() {
    let g = two_steps();
    let mut files = Snapshot::new();
    files.record(ss("lib.c", b"x"));
    files.record(ss("app", b"x"));
    assert_eq!(sources(&g, true, &files), vec![sp("lib.c"), sp("main.c")]);
    assert_eq!(sources(&g, false, &files), vec![sp("lib.c")]);
    assert_eq!(outputs(&g, true, &files), vec![sp("app"), sp("lib.o")]);
    assert_eq!(outputs(&g, false, &files), vec![sp("app")]);
}

#[test]
fn graph_report_lists_every_trace() {
    let rules = ruleset(&["app.do"]);
    let obs = at(0, vec![]);
    let r = dep_graph(two_steps(), &rules, &obs, None, true).unwrap();
    assert_eq!(
        r,
        GraphReport::Lines(vec![
            TraceLine {
                job: "lib.o.do(lib.o)".to_string(),
                valid: false,
                trace: format!("{} => {}", short("lib.c", b"code"), short("lib.o", b"obj")),
            },
            TraceLine {
                job: "app.do(app)".to_string(),
                valid: true,
                trace: format!(
                    "{} {} => {}",
                    short("main.c", b"main"),
                    short("lib.o", b"obj"),
                    short("app", b"bin")
                ),
            },
        ])
    );
}

#[test]
fn graph_report_leaves_out_what_is_superseded_or_out_of_date() {
    let rules = ruleset(&["app.do", "lib.o.do"]);
    let obs = at(0, vec![ss("main.c", b"main"), ss("lib.c", b"edited")]);
    match dep_graph(two_steps(), &rules, &obs, None, false).unwrap() {
        GraphReport::Lines(lines) => {
            assert_eq!(lines.len(), 1);
            assert_eq!(lines[0].job, "app.do(app)");
        }
        GraphReport::Tree(_) => panic!("asked for lines"),
    }
    let none = ruleset(&[]);
    assert_eq!(dep_graph(two_steps(), &none, &obs, None, false), Ok(GraphReport::Lines(vec![])));
}

#[test]
fn graph_report_for_a_target_is_its_tree() {
    let rules = ruleset(&["app.do", "lib.o.do"]);
    let obs = at(0, vec![ss("main.c", b"main"), ss("lib.c", b"code")]);
    match dep_graph(two_steps(), &rules, &obs, Some(sp("app")), false).unwrap() {
        GraphReport::Tree(o) => {
            assert_eq!(o.label, format!("{} <= app.do(app)", short("app", b"bin")));
            assert_eq!(o.children.len(), 2);
        }
        GraphReport::Lines(_) => panic!("asked for a tree"),
    }
}

#[test]
fn graph_report_for_a_target_can_fail() {
    let rules = ruleset(&["app.do", "lib.o.do"]);
    let stale = at(0, vec![ss("main.c", b"main"), ss("lib.c", b"edited")]);
    assert_eq!(
        dep_graph(two_steps(), &rules, &stale, Some(sp("app")), false),
        Err(ReportError::NoValidTrace)
    );
    assert_eq!(
        dep_graph(two_steps(), &rules, &stale, Some(sp("nothing")), true),
        Err(ReportError::NoRule)
    );
}

#[test]
fn listing_is_in_the_order_of_paths() {
    let names = ["b/a", "a/z", "a", "a/b/c", "a.b", "ab", "B", "a/b", "é", "a/é", "a/b"];
    let stamps: Vec<FileStamp> = names.iter().map(|n| ss(n, b"")).collect();
    let listed = listing(&stamps, true, &Snapshot::new());
    let mut expected: Vec<LocalPath> = names.iter().map(|n| sp(n)).collect();
    expected.sort();
    expected.dedup();
    assert_eq!(listed, expected);
    assert_eq!(listed.len(), 10);
    assert_eq!(listing(&stamps, false, &Snapshot::new()), vec![]);
}
