use redux::job::JobSpec;
use redux::local_path::LocalPath;
use redux::ruleset::{Rule, RuleSet, RuleSetError};
use std::cmp::Ordering;

fn rpath(s: &str) -> LocalPath {
    LocalPath::from_str(s).unwrap()
}

fn rule(s: &str) -> Rule {
    Rule::new(&rpath(s)).unwrap()
}

fn rules(scripts: &[&str]) -> RuleSet {
    RuleSet::new(scripts.iter().map(|s| rule(s)).collect()).unwrap()
}

fn chosen(set: &RuleSet, target: &str) -> Option<String> {
    set.job_for(rpath(target)).map(|j| j.rule.to_string())
}

#[test]
fn script_for_one_target() {
    let r = rule("src/foo.bar.do");
    assert!(!r.is_default());
    assert_eq!(r.name(), "foo.bar");
    assert_eq!(r.dir().to_string(), "src");
    assert_eq!(r.to_path(), rpath("src/foo.bar.do"));
    assert_eq!(r.to_glob(), "src/**/foo.bar");
}

#[test]
fn default_script_with_extension() {
    let r = rule("src/default.bar.baz.do");
    assert!(r.is_default());
    assert_eq!(r.name(), ".bar.baz");
    assert_eq!(r.to_path(), rpath("src/default.bar.baz.do"));
    assert_eq!(r.to_glob(), "src/**/*.bar.baz");
}

#[test]
fn default_script_for_everything() {
    let r = rule("default.do");
    assert!(r.is_default());
    assert_eq!(r.name(), "");
    assert_eq!(r.dir().depth(), 0);
    assert_eq!(r.to_path(), rpath("default.do"));
    assert_eq!(r.to_glob(), "**/*");
}

#[test]
fn name_that_only_starts_like_default() {
    let r = rule("defaults.do");
    assert!(!r.is_default());
    assert_eq!(r.name(), "defaults");
    assert_eq!(r.to_path(), rpath("defaults.do"));
}

#[test]
fn what_is_no_script() {
    assert_eq!(Rule::new(&rpath("src/main.c")), None);
    assert_eq!(Rule::new(&rpath("src/.do")), None);
    assert_eq!(Rule::new(&rpath("")), None);
    assert_eq!(Rule::new(&rpath("a.do/b")), None);
    assert_eq!(Rule::new(&rpath("do")), None);
}

#[test]
fn deeper_rule_wins() {
    let deep = rule("a/b/default.do");
    let shallow = rule("a/x.do");
    assert_eq!(deep.priority(&shallow), Ordering::Greater);
    assert_eq!(shallow.priority(&deep), Ordering::Less);
    assert!(deep.outranks(&shallow));
    assert!(!shallow.outranks(&deep));
}

#[test]
fn rule_for_one_target_wins_over_default() {
    let plain = rule("a/x.c.do");
    let default = rule("a/default.c.do");
    assert_eq!(plain.priority(&default), Ordering::Greater);
    assert_eq!(default.priority(&plain), Ordering::Less);
}

#[test]
fn longer_extension_wins() {
    let long = rule("a/default.a.b.do");
    let short = rule("a/default.b.do");
    assert_eq!(long.priority(&short), Ordering::Greater);
    assert_eq!(short.priority(&long), Ordering::Less);
}

#[test]
fn priority_is_equal_only_where_it_cannot_tell() {
    assert_eq!(rule("a/x.do").priority(&rule("a/x.do")), Ordering::Equal);
    assert_eq!(rule("a/default.c.do").priority(&rule("b/default.h.do")), Ordering::Equal);
}

#[test]
fn rules_are_kept_best_first() {
    let set = rules(&["default.do", "a/default.c.do", "a/b/x.c.do", "a/y.c.do", "a/default.x.c.do"]);
    let scripts: Vec<String> = set.iter().into_iter().map(|p| p.1.to_string()).collect();
    assert_eq!(
        scripts,
        vec!["a/b/x.c.do", "a/y.c.do", "a/default.x.c.do", "a/default.c.do", "default.do"]
    );
    assert_eq!(set.len(), 5);
    let globs: Vec<String> = set.iter().into_iter().map(|p| p.0).collect();
    assert_eq!(globs, vec!["a/b/**/x.c", "a/**/y.c", "a/**/*.x.c", "a/**/*.c", "**/*"]);
}

#[test]
fn single_rule_builds_its_target() {
    let set = rules(&["hello.txt.do"]);
    let job = set.job_for(rpath("hello.txt")).unwrap();
    assert_eq!(job.rule, rpath("hello.txt.do"));
    assert_eq!(job.target, rpath("hello.txt"));
    assert!(job.env.is_empty());
    assert_eq!(set.job_for(rpath("other.txt")), None);
}

#[test]
fn root_default_matches_nested_target_unless_a_deeper_rule_does() {
    let set = rules(&["default.do", "src/default.c.do"]);
    assert_eq!(chosen(&set, "src/foo.h"), Some("default.do".to_string()));
    assert_eq!(chosen(&set, "src/foo.c"), Some("src/default.c.do".to_string()));
    assert_eq!(chosen(&set, "src/deep/er/foo.c"), Some("src/default.c.do".to_string()));
    assert_eq!(chosen(&set, "lib/foo.c"), Some("default.do".to_string()));
    assert_eq!(chosen(&set, "foo"), Some("default.do".to_string()));
}

#[test]
fn longer_extension_rule_is_chosen() {
    let set = rules(&["default.b.do", "default.a.b.do"]);
    assert_eq!(chosen(&set, "x.a.b"), Some("default.a.b.do".to_string()));
    assert_eq!(chosen(&set, "x.b"), Some("default.b.do".to_string()));
    assert_eq!(chosen(&set, "x.c"), None);
}

#[test]
fn rule_for_one_target_is_chosen_over_default() {
    let set = rules(&["a/default.c.do", "a/main.c.do"]);
    assert_eq!(chosen(&set, "a/main.c"), Some("a/main.c.do".to_string()));
    assert_eq!(chosen(&set, "a/other.c"), Some("a/default.c.do".to_string()));
}

#[test]
fn no_rule_no_job() {
    let set = rules(&[]);
    assert_eq!(set.len(), 0);
    assert_eq!(set.job_for(rpath("anything")), None);
}

#[test]
fn chosen_job_is_valid() {
    let set = rules(&["default.do", "src/default.c.do", "src/main.c.do"]);
    for t in ["src/main.c", "src/other.c", "README", "src/x/y.c"] {
        let job = set.job_for(rpath(t)).unwrap();
        assert!(set.is_job_valid(&job));
    }
}

#[test]
fn job_of_a_shadowed_rule_is_not_valid() {
    let old = rules(&["default.c.do"]);
    let job = old.job_for(rpath("src/foo.c")).unwrap();
    assert!(old.is_job_valid(&job));
    let new = rules(&["default.c.do", "src/default.c.do"]);
    assert!(!new.is_job_valid(&job));
    assert!(new.is_job_valid(&new.job_for(rpath("src/foo.c")).unwrap()));
}

#[test]
fn job_with_environment_or_unknown_rule_is_not_valid() {
    let set = rules(&["a.do"]);
    let mut job = set.job_for(rpath("a")).unwrap();
    job.env.push(("K".to_string(), "v".to_string()));
    assert!(!set.is_job_valid(&job));
    let stranger = JobSpec { rule: rpath("b.do"), target: rpath("a"), env: vec![] };
    assert!(!set.is_job_valid(&stranger));
    let unmatched = JobSpec { rule: rpath("a.do"), target: rpath("zzz"), env: vec![] };
    assert!(!set.is_job_valid(&unmatched));
}

#[test]
fn fancy_gives_text_and_validity() {
    let set = rules(&["a.do"]);
    let job = set.job_for(rpath("a")).unwrap();
    assert_eq!(job.fancy(&set), ("a.do(a)".to_string(), true));
    let stale = JobSpec { rule: rpath("gone.do"), target: rpath("a"), env: vec![] };
    assert_eq!(stale.fancy(&set), ("gone.do(a)".to_string(), false));
}

#[test]
fn scan_keeps_the_scripts_among_the_paths() {
    let paths = vec![
        rpath("README"),
        rpath("default.do"),
        rpath("src/main.c"),
        rpath("src/main.c.do"),
        rpath("src/.do"),
    ];
    let set = RuleSet::scan_for_do_files(&paths).unwrap();
    let scripts: Vec<String> = set.iter().into_iter().map(|p| p.1.to_string()).collect();
    assert_eq!(scripts, vec!["src/main.c.do", "default.do"]);
}

#[test]
fn malformed_glob_is_refused() {
    let r = RuleSet::new(vec![rule("ok.do"), rule("bad[.do")]);
    assert!(matches!(r, Err(RuleSetError::BadGlob)));
    let paths = vec![rpath("a/{b.do")];
    assert!(matches!(RuleSet::scan_for_do_files(&paths), Err(RuleSetError::BadGlob)));
}

#[test]
fn rules_of_equal_rank_keep_their_order() {
    let scripts = |set: &RuleSet| -> Vec<String> {
        set.iter().into_iter().map(|p| p.1.to_string()).collect()
    };
    assert_eq!(scripts(&rules(&["a/x.do", "b/y.do", "c/z.do"])), vec!["a/x.do", "b/y.do", "c/z.do"]);
    assert_eq!(scripts(&rules(&["c/z.do", "b/y.do", "a/x.do"])), vec!["c/z.do", "b/y.do", "a/x.do"]);
    assert_eq!(
        scripts(&rules(&["default.c.do", "q/deep.do", "default.h.do"])),
        vec!["q/deep.do", "default.c.do", "default.h.do"]
    );
}
