use redux::build_id::BuildId;
use redux::error::ParseError;
use redux::filestamp::FileStamp;
use redux::hash::ContentHash;
use redux::job::{EnvVar, JobSpec};
use redux::local_path::LocalPath;
use redux::timestamp::Timestamp;
use redux::trace::{Trace, TraceFileLine};
use redux::tracefile::TraceFile;

fn trace_stamp(path: &str, contents: &[u8]) -> FileStamp {
    FileStamp::new(LocalPath::from_str(path).unwrap(), contents)
}

fn trace_job(rule: &str, target: &str) -> JobSpec {
    JobSpec {
        rule: LocalPath::from_str(rule).unwrap(),
        target: LocalPath::from_str(target).unwrap(),
        env: vec![],
    }
}

fn all_kinds() -> Vec<TraceFileLine> {
    vec![
        TraceFileLine::Source(trace_stamp("a.do", b"rule")),
        TraceFileLine::Source(trace_stamp("b", b"b")),
        TraceFileLine::Generated(trace_stamp("c", b"c")),
        TraceFileLine::EnvVar(EnvVar { key: "K".to_string(), val: "v".to_string() }),
        TraceFileLine::Data(ContentHash::of(b"data")),
        TraceFileLine::ValidFor(BuildId(7)),
        TraceFileLine::ValidUntil(Timestamp { secs: 2000, nanos: 0 }),
        TraceFileLine::ValidUntil(Timestamp { secs: 1000, nanos: 0 }),
        TraceFileLine::ValidUntil(Timestamp { secs: 3000, nanos: 0 }),
        TraceFileLine::Produced(trace_stamp("a", b"out")),
    ]
}

fn folded(lines: &Vec<TraceFileLine>) -> Trace {
    let mut t = Trace::default();
    for l in lines {
        t.merge(l.clone());
    }
    t
}

#[test]
fn empty_trace_is_the_default() {
    let t = Trace::default();
    assert!(t.sources.is_empty() && t.intermediates.is_empty() && t.outputs.is_empty());
    assert!(t.env_vars.is_empty() && t.data.is_empty());
    assert_eq!(t.valid_for, None);
    assert_eq!(t.valid_until, None);
    assert_eq!(Trace::parse("").0, t);
}

#[test]
fn merge_sorts_the_lines_into_their_fields() {
    let t = folded(&all_kinds());
    assert_eq!(t.sources, vec![trace_stamp("a.do", b"rule"), trace_stamp("b", b"b")]);
    assert_eq!(t.intermediates, vec![trace_stamp("c", b"c")]);
    assert_eq!(t.outputs, vec![trace_stamp("a", b"out")]);
    assert_eq!(t.env_vars, vec![EnvVar { key: "K".to_string(), val: "v".to_string() }]);
    assert_eq!(t.data, vec![ContentHash::of(b"data")]);
    assert_eq!(t.valid_for, Some(BuildId(7)));
}

#[test]
fn earliest_valid_until_wins() {
    let t = folded(&all_kinds());
    assert_eq!(t.valid_until, Some(Timestamp { secs: 1000, nanos: 0 }));
}

#[test]
fn later_valid_for_replaces_earlier() {
    let mut t = Trace::default();
    t.merge(TraceFileLine::ValidFor(BuildId(1)));
    t.merge(TraceFileLine::ValidFor(BuildId(2)));
    assert_eq!(t.valid_for, Some(BuildId(2)));
}

#[test]
fn job_line_changes_nothing() {
    let mut t = folded(&all_kinds());
    let before = t.clone();
    t.merge(TraceFileLine::Job(trace_job("a.do", "a")));
    assert_eq!(t, before);
}

#[test]
fn parse_folds_the_lines_of_a_text() {
    let lines = all_kinds();
    let mut text = String::new();
    for l in &lines {
        text.push_str(&l.to_string());
        text.push('\n');
    }
    let (t, skipped) = Trace::parse(&text);
    assert_eq!(t, folded(&lines));
    assert!(skipped.is_empty());
}

#[test]
fn parse_does_not_need_the_last_line_break() {
    let a = TraceFileLine::Source(trace_stamp("x", b"1")).to_string();
    let b = TraceFileLine::Produced(trace_stamp("y", b"2")).to_string();
    let with = Trace::parse(&format!("{}\n{}\n", a, b));
    let without = Trace::parse(&format!("{}\n{}", a, b));
    assert_eq!(with, without);
    assert_eq!(with.0.sources.len(), 1);
    assert_eq!(with.0.outputs.len(), 1);
}

#[test]
fn unreadable_line_is_passed_over() {
    let a = TraceFileLine::Source(trace_stamp("x", b"1")).to_string();
    let b = TraceFileLine::Produced(trace_stamp("y", b"2")).to_string();
    let (t, skipped) = Trace::parse(&format!("{}\nfuture_tag something\n\n{}\n", a, b));
    assert_eq!(t.sources, vec![trace_stamp("x", b"1")]);
    assert_eq!(t.outputs, vec![trace_stamp("y", b"2")]);
    assert_eq!(skipped, vec![1, 2]);
}

#[test]
fn traces_compare_by_all_fields() {
    let a = folded(&all_kinds());
    let mut b = folded(&all_kinds());
    assert!(a.same(&b));
    b.valid_for = None;
    assert!(!a.same(&b));
    let mut c = folded(&all_kinds());
    c.sources.pop();
    assert!(!a.same(&c));
    let mut d = folded(&all_kinds());
    d.valid_until = Some(Timestamp { secs: 1000, nanos: 1 });
    assert!(!a.same(&d));
}

#[test]
fn new_trace_file_sits_beside_the_target() {
    let (file, header) = TraceFile::create(trace_job("d/default.c.do", "d/e/f.c"), "/w", b"rule").unwrap();
    assert_eq!(file.path, "/w/d/e/.redux_f.c.trace");
    assert_eq!(file.job, trace_job("d/default.c.do", "d/e/f.c"));
    let rule = trace_stamp("d/default.c.do", b"rule");
    assert_eq!(
        header,
        format!("job d/default.c.do(d/e/f.c)\nsource {}\n", rule.to_string())
    );
}

#[test]
fn new_trace_file_at_the_top() {
    let (file, _) = TraceFile::create(trace_job("a.do", "a"), "/w", b"").unwrap();
    assert_eq!(file.path, "/w/.redux_a.trace");
}

#[test]
fn target_without_a_name_has_no_trace_file() {
    assert_eq!(TraceFile::create(trace_job("a.do", ""), "/w", b""), None);
}

#[test]
fn header_reads_as_job_and_first_source() {
    let (_, header) = TraceFile::create(trace_job("a.do", "a"), "/w", b"echo").unwrap();
    let (job, trace, skipped) = TraceFile::read(&header).unwrap();
    assert_eq!(job, trace_job("a.do", "a"));
    assert_eq!(trace.sources, vec![trace_stamp("a.do", b"echo")]);
    assert!(trace.outputs.is_empty());
    assert!(skipped.is_empty());
}

#[test]
fn written_file_reads_back_as_folded_trace() {
    let job = trace_job("a.do", "a");
    let (file, header) = TraceFile::create(job.clone(), "/w", b"rule").unwrap();
    let mut text = header;
    let rest = all_kinds().split_off(1);
    for l in &rest {
        text.push_str(&TraceFile::append(Some(&file), l.clone()).text);
    }
    let (read_job, read_trace, skipped) = TraceFile::read(&text).unwrap();
    assert_eq!(read_job, job);
    assert_eq!(read_trace, folded(&all_kinds()));
    assert!(skipped.is_empty());
}

#[test]
fn append_gives_text_and_notice() {
    let file = TraceFile { path: "/w/.redux_a.trace".to_string(), job: trace_job("a.do", "sub/a") };
    let line = TraceFileLine::EnvVar(EnvVar { key: "K".to_string(), val: "v".to_string() });
    let with = TraceFile::append(Some(&file), line.clone());
    assert_eq!(with.text, "env_var K=v\n");
    assert_eq!(with.notice, "sub/a: env_var K=v");
    let without = TraceFile::append(None, line);
    assert_eq!(without.text, "env_var K=v\n");
    assert_eq!(without.notice, "env_var K=v");
}

#[test]
fn finish_appends_the_produced_line() {
    let file = TraceFile { path: "/w/.redux_a.trace".to_string(), job: trace_job("a.do", "a") };
    let out = trace_stamp("a", b"hi");
    let done = file.finish(out.clone());
    assert_eq!(done.text, format!("produced {}\n", out.to_string()));
    assert_eq!(done.notice, format!("a: produced {}", out.to_string()));
}

#[test]
fn file_without_header_is_refused() {
    assert_eq!(TraceFile::read(""), Err(ParseError::MissingHeader));
    assert_eq!(TraceFile::read("job a.do(a)"), Err(ParseError::MissingHeader));
    let s = TraceFileLine::Source(trace_stamp("x", b"1")).to_string();
    assert_eq!(TraceFile::read(&format!("{}\n", s)), Err(ParseError::MissingHeader));
    assert_eq!(TraceFile::read("what is this\n"), Err(ParseError::UnknownTag));
    assert_eq!(TraceFile::read("job nothing\n"), Err(ParseError::NoParen));
}

#[test]
fn file_with_an_unreadable_line_still_folds() {
    let text = format!(
        "job a.do(a)\nsource {}\ngarbage\nproduced {}\n",
        trace_stamp("a.do", b"r").to_string(),
        trace_stamp("a", b"o").to_string()
    );
    let (job, trace, skipped) = TraceFile::read(&text).unwrap();
    assert_eq!(job, trace_job("a.do", "a"));
    assert_eq!(trace.sources, vec![trace_stamp("a.do", b"r")]);
    assert_eq!(trace.outputs, vec![trace_stamp("a", b"o")]);
    assert_eq!(skipped, vec![1]);
}

#[test]
fn open_keeps_the_path_and_reads_the_job() {
    let f = TraceFile::open("/w/.redux_a.trace".to_string(), "job a.do(a)\n").unwrap();
    assert_eq!(f.path, "/w/.redux_a.trace");
    assert_eq!(f.job, trace_job("a.do", "a"));
    assert_eq!(
        TraceFile::open("/w/x".to_string(), "nope"),
        Err(ParseError::MissingHeader)
    );
}

#[test]
fn current_trace_file_is_the_announced_one() {
    assert_eq!(TraceFile::current(None), Ok(None));
    let found = TraceFile::current(Some(("/w/.redux_a.trace".to_string(), "job a.do(a)\n".to_string())));
    assert_eq!(
        found,
        Ok(Some(TraceFile { path: "/w/.redux_a.trace".to_string(), job: trace_job("a.do", "a") }))
    );
    assert_eq!(
        TraceFile::current(Some(("/w/x".to_string(), "".to_string()))),
        Err(ParseError::MissingHeader)
    );
}
