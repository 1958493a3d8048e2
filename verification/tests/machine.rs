use redux::engine::Workspace;
use redux::filestamp::FileStamp;
use redux::hash::ContentHash;
use redux::job::JobSpec;
use redux::local_path::LocalPath;
use redux::machine::{
    actually_run, build, is_over, BuildAction, BuildEvent, BuildPlan, BuildState, Exit, Outcome,
    Verdict,
};

fn plan(force: bool) -> BuildPlan {
    let job = JobSpec {
        rule: LocalPath::from_str("hello.txt.do").unwrap(),
        target: LocalPath::from_str("hello.txt").unwrap(),
        env: vec![],
    };
    let ws = Workspace::new("/w".to_string(), "/w/.git");
    BuildPlan::new(job, force, &ws, b"echo hi > $3").unwrap()
}

fn exited(code: Option<i32>, output_exists: bool, target_exists: bool) -> BuildEvent {
    BuildEvent::Exited(Exit { code, output_exists, target_exists })
}

fn cleanup() -> BuildAction {
    BuildAction::Cleanup {
        files: vec!["/w/.redux_hello.txt.tmp".to_string(), "/w/.redux_hello.txt.trace".to_string()],
    }
}

/// One step from the point where the rule runs.
fn build_from_running(p: &mut BuildPlan, event: BuildEvent) -> (BuildState, BuildAction) {
    let at = running(p);
    build(p, at, event)
}

/// Takes the build from the beginning to the point where the rule runs.
fn running(p: &mut BuildPlan) -> BuildState {
    let (s, _) = build(p, BuildState::Idle, BuildEvent::Begin);
    let (s, _) = build(p, s, BuildEvent::Restored(false));
    let (s, a) = build(p, s, BuildEvent::LockCreated);
    assert_eq!(a, BuildAction::RunRule);
    s
}

#[test]
fn plan_knows_its_places() {
    let p = plan(false);
    assert_eq!(p.files.trace.path, "/w/.redux_hello.txt.trace");
    assert_eq!(p.files.out, "/w/.redux_hello.txt.tmp");
    assert_eq!(p.target, "/w/hello.txt");
    assert_eq!(p.traces_dir, "/w/.git/redux/traces");
    assert!(p.header.starts_with("job hello.txt.do(hello.txt)\nsource hello.txt.do@"));
    assert!(!p.force);
}

#[test]
fn plan_needs_a_target_with_a_name() {
    let job = JobSpec { rule: LocalPath::from_str("a.do").unwrap(), target: LocalPath::root(), env: vec![] };
    let ws = Workspace::new("/w".to_string(), "/w/.git");
    assert_eq!(BuildPlan::new(job, false, &ws, b""), None);
}

#[test]
fn exit_code_decides() {
    let x = |code, out, target| actually_run(Exit { code, output_exists: out, target_exists: target });
    assert_eq!(x(Some(0), true, false), Verdict::Commit);
    assert_eq!(x(Some(0), false, true), Verdict::NoOutput);
    assert_eq!(x(Some(102), false, true), Verdict::Reuse);
    assert_eq!(x(Some(102), true, true), Verdict::Reuse);
    assert_eq!(x(Some(102), false, false), Verdict::JobFailed);
    assert_eq!(x(Some(1), true, true), Verdict::JobFailed);
    assert_eq!(x(Some(-1), true, true), Verdict::JobFailed);
    assert_eq!(x(None, true, true), Verdict::JobFailed);
}

#[test]
fn first_build_runs_the_rule_and_commits() {
    let mut p = plan(false);
    let (s, a) = build(&mut p, BuildState::Idle, BuildEvent::Begin);
    assert_eq!((s, a), (BuildState::Restoring, BuildAction::TryRestore));
    let (s, a) = build(&mut p, s, BuildEvent::Restored(false));
    assert_eq!(s, BuildState::Locking);
    assert_eq!(
        a,
        BuildAction::CreateLock { path: "/w/.redux_hello.txt.trace".to_string(), header: p.header.clone() }
    );
    let (s, a) = build(&mut p, s, BuildEvent::LockCreated);
    assert_eq!((s, a), (BuildState::Running, BuildAction::RunRule));
    let (s, a) = build(&mut p, s, exited(Some(0), true, false));
    assert_eq!(s, BuildState::Moving);
    assert_eq!(
        a,
        BuildAction::MoveOutput { from: "/w/.redux_hello.txt.tmp".to_string(), to: "/w/hello.txt".to_string() }
    );
    let (s, a) = build(&mut p, s, BuildEvent::Moved);
    assert_eq!(s, BuildState::Stamping);
    assert_eq!(a, BuildAction::ReadTarget { path: "/w/hello.txt".to_string() });
    let stamp = FileStamp::new(LocalPath::from_str("hello.txt").unwrap(), b"hi");
    let (s, a) = build(&mut p, s, BuildEvent::TargetRead(b"hi".to_vec()));
    assert_eq!(s, BuildState::Recording);
    assert_eq!(
        a,
        BuildAction::Record {
            stamp: stamp.clone(),
            path: "/w/.redux_hello.txt.trace".to_string(),
            text: format!("produced hello.txt@{}\n", blake3::hash(b"hi").to_hex()),
        }
    );
    let (s, a) = build(&mut p, s, BuildEvent::Recorded);
    assert_eq!(s, BuildState::Naming);
    assert_eq!(a, BuildAction::ReadTrace { path: "/w/.redux_hello.txt.trace".to_string() });
    let trace_hash = ContentHash::of(b"the bytes of the trace file");
    let (s, a) = build(&mut p, s, BuildEvent::TraceRead(b"the bytes of the trace file".to_vec()));
    assert_eq!(s, BuildState::Publishing);
    assert_eq!(
        a,
        BuildAction::Publish {
            from: "/w/.redux_hello.txt.trace".to_string(),
            to: format!("/w/.git/redux/traces/{}.trace", trace_hash.to_hex()),
        }
    );
    assert!(!p.files.committed);
    let (s, a) = build(&mut p, s, BuildEvent::Published);
    assert_eq!((s, a), (BuildState::Done(Outcome::Built), BuildAction::Finish(Outcome::Built)));
    assert!(is_over(&s));
    assert!(p.files.committed);
    assert!(p.files.cleanup().is_empty());
}

#[test]
fn second_build_restores_and_does_not_run_the_rule() {
    let mut p = plan(false);
    let (s, a) = build(&mut p, BuildState::Idle, BuildEvent::Begin);
    assert_eq!(a, BuildAction::TryRestore);
    let (s, a) = build(&mut p, s, BuildEvent::Restored(true));
    assert_eq!((s, a), (BuildState::Done(Outcome::Restored), BuildAction::Finish(Outcome::Restored)));
}

#[test]
fn forced_build_does_not_try_to_restore() {
    let mut p = plan(true);
    let (s, a) = build(&mut p, BuildState::Idle, BuildEvent::Begin);
    assert_eq!(s, BuildState::Locking);
    assert!(matches!(a, BuildAction::CreateLock { .. }));
}

#[test]
fn taken_lock_means_wait_and_try_to_restore_again() {
    let mut p = plan(false);
    let (s, _) = build(&mut p, BuildState::Idle, BuildEvent::Begin);
    let (s, _) = build(&mut p, s, BuildEvent::Restored(false));
    let (s, a) = build(&mut p, s, BuildEvent::LockTaken);
    assert_eq!((s, a), (BuildState::Waiting, BuildAction::Sleep { secs: 1 }));
    let (s, a) = build(&mut p, s, BuildEvent::Woke);
    assert_eq!((s, a), (BuildState::Restoring, BuildAction::TryRestore));
    let (s, _) = build(&mut p, s, BuildEvent::Restored(true));
    assert_eq!(s, BuildState::Done(Outcome::Restored));
}

#[test]
fn forced_build_waits_and_asks_for_the_lock_again() {
    let mut p = plan(true);
    let (s, _) = build(&mut p, BuildState::Idle, BuildEvent::Begin);
    let (s, _) = build(&mut p, s, BuildEvent::LockTaken);
    let (s, a) = build(&mut p, s, BuildEvent::Woke);
    assert_eq!(s, BuildState::Locking);
    assert!(matches!(a, BuildAction::CreateLock { .. }));
}

#[test]
fn failed_rule_leaves_no_temporary_files() {
    let mut p = plan(false);
    let (s, a) = build_from_running(&mut p, exited(Some(1), true, false));
    assert_eq!(s, BuildState::Cleaning(Outcome::JobFailed));
    assert_eq!(a, cleanup());
    let (s, a) = build(&mut p, s, BuildEvent::Cleaned);
    assert_eq!((s, a), (BuildState::Done(Outcome::JobFailed), BuildAction::Finish(Outcome::JobFailed)));
}

#[test]
fn rule_without_output_is_a_failure() {
    let mut p = plan(false);
    let (s, a) = build_from_running(&mut p, exited(Some(0), false, false));
    assert_eq!(s, BuildState::Cleaning(Outcome::NoOutput));
    assert_eq!(a, cleanup());
}

#[test]
fn rule_that_bails_out_is_reused() {
    let mut p = plan(false);
    let (s, a) = build_from_running(&mut p, exited(Some(102), false, true));
    assert_eq!(s, BuildState::Cleaning(Outcome::Reused));
    assert_eq!(a, cleanup());
    let (s, _) = build(&mut p, s, BuildEvent::Cleaned);
    assert_eq!(s, BuildState::Done(Outcome::Reused));
}

#[test]
fn failure_during_commit_cleans_up() {
    let mut p = plan(false);
    let (moving, _) = build_from_running(&mut p, exited(Some(0), true, false));
    let (stamping, _) = build(&mut p, moving, BuildEvent::Moved);
    let (recording, _) = build(&mut p, stamping, BuildEvent::TargetRead(b"hi".to_vec()));
    let (naming, _) = build(&mut p, recording, BuildEvent::Recorded);
    let (publishing, _) = build(&mut p, naming, BuildEvent::TraceRead(b"t".to_vec()));
    let at = running(&mut p);
    for s in [at, moving, stamping, recording, naming, publishing] {
        let (next, a) = build(&mut p, s, BuildEvent::Failed);
        assert_eq!(next, BuildState::Cleaning(Outcome::Failed));
        assert_eq!(a, cleanup());
    }
}

#[test]
fn failure_before_the_lock_needs_no_cleanup() {
    let mut p = plan(false);
    for s in [BuildState::Idle, BuildState::Restoring, BuildState::Locking, BuildState::Waiting] {
        let (next, a) = build(&mut p, s, BuildEvent::Failed);
        assert_eq!(next, BuildState::Done(Outcome::Failed));
        assert_eq!(a, BuildAction::Finish(Outcome::Failed));
    }
}

#[test]
fn unexpected_event_is_a_failure() {
    let mut p = plan(false);
    let (s, a) = build(&mut p, BuildState::Idle, BuildEvent::Published);
    assert_eq!((s, a), (BuildState::Done(Outcome::Failed), BuildAction::Finish(Outcome::Failed)));
    let (s, a) = build_from_running(&mut p, BuildEvent::LockCreated);
    assert_eq!(s, BuildState::Cleaning(Outcome::Failed));
    assert_eq!(a, cleanup());
}

#[test]
fn published_trace_is_named_by_the_hash_of_its_bytes() {
    let mut p = plan(false);
    let text = b"job hello.txt.do(hello.txt)\n";
    let (_, a) = build(&mut p, BuildState::Naming, BuildEvent::TraceRead(text.to_vec()));
    assert_eq!(
        a,
        BuildAction::Publish {
            from: "/w/.redux_hello.txt.trace".to_string(),
            to: format!("/w/.git/redux/traces/{}.trace", blake3::hash(text).to_hex()),
        }
    );
}

#[test]
fn finished_build_stays_finished() {
    let mut p = plan(false);
    let done = BuildState::Done(Outcome::Built);
    assert_eq!(build(&mut p, done, BuildEvent::Begin), (done, BuildAction::Finish(Outcome::Built)));
    assert_eq!(build(&mut p, done, BuildEvent::Failed), (done, BuildAction::Finish(Outcome::Built)));
    assert!(!is_over(&BuildState::Cleaning(Outcome::Failed)));
}

#[test]
fn of_two_builds_only_the_one_with_the_lock_runs_the_rule() {
    let mut p = plan(false);
    let (a, _) = build(&mut p, BuildState::Idle, BuildEvent::Begin);
    let (a, _) = build(&mut p, a, BuildEvent::Restored(false));
    let (b, _) = build(&mut p, BuildState::Idle, BuildEvent::Begin);
    let (b, _) = build(&mut p, b, BuildEvent::Restored(false));
    let (a, first) = build(&mut p, a, BuildEvent::LockCreated);
    let (b, second) = build(&mut p, b, BuildEvent::LockTaken);
    assert_eq!(first, BuildAction::RunRule);
    assert_eq!(second, BuildAction::Sleep { secs: 1 });
    assert_eq!(a, BuildState::Running);
    let (b, again) = build(&mut p, b, BuildEvent::Woke);
    assert_eq!(again, BuildAction::TryRestore);
    let (b, _) = build(&mut p, b, BuildEvent::Restored(true));
    assert_eq!(b, BuildState::Done(Outcome::Restored));
}

#[test]
fn only_a_built_run_is_committed() {
    let mut p = plan(false);
    let s = running(&mut p);
    let (s, _) = build(&mut p, s, exited(Some(1), false, false));
    let (s, _) = build(&mut p, s, BuildEvent::Cleaned);
    assert_eq!(s, BuildState::Done(Outcome::JobFailed));
    assert!(!p.files.committed);
    let mut q = plan(false);
    let (s, _) = build(&mut q, BuildState::Idle, BuildEvent::Begin);
    let (s, _) = build(&mut q, s, BuildEvent::Restored(true));
    assert_eq!(s, BuildState::Done(Outcome::Restored));
    assert!(!q.files.committed);
}
