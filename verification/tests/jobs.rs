use redux::error::ParseError;
use redux::job::{EnvVar, JobSpec};
use redux::local_path::LocalPath;

fn path(s: &str) -> LocalPath {
    LocalPath::from_str(s).unwrap()
}

fn job(rule: &str, target: &str) -> JobSpec {
    JobSpec { rule: path(rule), target: path(target), env: vec![] }
}

#[test]
fn env_var_text_is_key_equals_value() {
    let e = EnvVar { key: "CC".to_string(), val: "gcc -O2".to_string() };
    assert_eq!(e.to_string(), "CC=gcc -O2");
    assert_eq!(EnvVar::from_str("CC=gcc -O2"), Ok(e));
}

#[test]
fn env_var_splits_at_the_first_equals_sign() {
    let e = EnvVar::from_str("A=b=c").unwrap();
    assert_eq!(e.key, "A");
    assert_eq!(e.val, "b=c");
    assert_eq!(EnvVar::from_str("A="), Ok(EnvVar { key: "A".to_string(), val: "".to_string() }));
}

#[test]
fn env_var_without_equals_sign_is_refused() {
    assert_eq!(EnvVar::from_str("CC"), Err(ParseError::NoEqualsSign));
}

#[test]
fn job_text_without_environment() {
    let j = job("src/default.c.do", "src/foo.c");
    assert_eq!(j.to_string(), "src/default.c.do(src/foo.c)");
}

#[test]
fn job_text_with_environment() {
    let mut j = job("a.do", "a");
    j.env.push(("CC".to_string(), "gcc".to_string()));
    j.env.push(("V".to_string(), "1".to_string()));
    assert_eq!(j.to_string(), "a.do(a,CC=gcc,V=1)");
}

#[test]
fn job_text_reads_back() {
    let mut j = job("x/y/default.b.c.do", "x/y/z.b.c");
    assert_eq!(JobSpec::from_str(&j.to_string()), Ok(j.clone()));
    j.env.push(("CC".to_string(), "gcc".to_string()));
    j.env.push(("EMPTY".to_string(), "".to_string()));
    j.env.push(("V".to_string(), "a=b".to_string()));
    assert_eq!(JobSpec::from_str(&j.to_string()), Ok(j));
}

#[test]
fn job_text_with_a_bracket_in_the_value_does_not_read_back() {
    let mut j = job("a.do", "a");
    j.env.push(("K".to_string(), "v)".to_string()));
    let back = JobSpec::from_str(&j.to_string()).unwrap();
    assert_ne!(back, j);
    assert_eq!(back.env, vec![("K".to_string(), "v".to_string())]);
}

#[test]
fn job_without_bracket_is_refused() {
    assert_eq!(JobSpec::from_str("a.do"), Err(ParseError::NoParen));
}

#[test]
fn job_with_bad_paths_is_refused() {
    assert_eq!(JobSpec::from_str("../a.do(a)"), Err(ParseError::BadPath));
    assert_eq!(JobSpec::from_str("a.do(/a)"), Err(ParseError::BadPath));
}

#[test]
fn job_with_an_entry_without_equals_sign_is_refused() {
    assert_eq!(JobSpec::from_str("a.do(a,CC)"), Err(ParseError::NoEqualsSign));
}

#[test]
fn job_tolerates_missing_and_repeated_closing_brackets() {
    assert_eq!(JobSpec::from_str("a.do(a"), Ok(job("a.do", "a")));
    assert_eq!(JobSpec::from_str("a.do(a))"), Ok(job("a.do", "a")));
}

#[test]
fn target_is_seen_from_the_rule() {
    assert_eq!(job("x/default.c.do", "x/y/z.c").target_relative_to_rule(), "y/z.c");
    assert_eq!(job("default.do", "x/y").target_relative_to_rule(), "x/y");
    assert_eq!(job("a/b.do", "c").target_relative_to_rule(), "../c");
    assert_eq!(job("a/b.do", "a/b").abs_target("/w"), "/w/a/b");
}

#[test]
fn default_rule_gives_its_extension() {
    assert_eq!(job("default.b.c.do", "x/y/z.b.c").rule_extension(), ".b.c");
    assert_eq!(job("d/default.do", "d/x").rule_extension(), "");
    assert_eq!(job("chicken.a.b.c.do", "chicken.a.b.c").rule_extension(), "");
    assert_eq!(job("defaultfoo.do", "defaultfoo").rule_extension(), "");
    assert_eq!(job("default.c", "a.c").rule_extension(), "");
}

#[test]
fn target_minus_extension_strips_what_the_rule_stands_for() {
    assert_eq!(
        job("default.b.c.do", "x/y/z.b.c").target_minus_extension(),
        Some("x/y/z".to_string())
    );
    assert_eq!(
        job("default.c.do", "chicken.a.b.c").target_minus_extension(),
        Some("chicken.a.b".to_string())
    );
}

#[test]
fn target_minus_extension_of_a_plain_rule_is_the_target() {
    let j = job("chicken.a.b.c.do", "chicken.a.b.c");
    assert_eq!(j.target_minus_extension(), Some(j.target_relative_to_rule()));
}

#[test]
fn target_minus_extension_needs_the_extension() {
    assert_eq!(job("default.c.do", "a.h").target_minus_extension(), None);
}

#[test]
fn jobs_compare_by_all_fields() {
    let a = job("a.do", "a");
    let mut b = job("a.do", "a");
    assert!(a.same(&b));
    b.env.push(("K".to_string(), "v".to_string()));
    assert!(!a.same(&b));
    assert!(!a.same(&job("b.do", "a")));
    assert!(!a.same(&job("a.do", "b")));
}
