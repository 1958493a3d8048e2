use redux::error::ParseError;
use redux::filestamp::{FileStamp, Snapshot};
use redux::local_path::LocalPath;

fn path(s: &str) -> LocalPath {
    LocalPath::from_str(s).unwrap()
}

#[test]
fn path_text_round_trips() {
    let p = path("a/b/c.txt");
    assert_eq!(p.to_string(), "a/b/c.txt");
    assert_eq!(LocalPath::from_str(&p.to_string()), Ok(p));
}

#[test]
fn path_parts() {
    let p = path("a/b/c.txt");
    assert_eq!(p.depth(), 3);
    assert_eq!(p.file_name(), "c.txt");
    assert_eq!(p.parent().to_string(), "a/b");
    assert_eq!(p.parent().parent().parent(), LocalPath::root());
    assert_eq!(p.as_path(), &vec!["a".to_string(), "b".to_string(), "c.txt".to_string()]);
}

#[test]
fn empty_text_is_the_root() {
    let p = path("");
    assert_eq!(p.depth(), 0);
    assert_eq!(p, LocalPath::root());
    assert_eq!(p.to_string(), "");
}

#[test]
fn empty_pieces_and_dots_are_skipped() {
    assert_eq!(path("a//b/./c/"), path("a/b/c"));
    assert_eq!(path("./a"), path("a"));
    assert_eq!(path("a//b/./c/").to_string(), "a/b/c");
}

#[test]
fn parent_dir_is_refused() {
    assert_eq!(LocalPath::from_str("../a"), Err(ParseError::BadPath));
    assert_eq!(LocalPath::from_str("a/../b"), Err(ParseError::BadPath));
    assert_eq!(LocalPath::from_str(".."), Err(ParseError::BadPath));
    assert!(LocalPath::from_str("a/..b").is_ok());
}

#[test]
fn absolute_text_is_refused() {
    assert_eq!(LocalPath::from_str("/etc/passwd"), Err(ParseError::BadPath));
    assert_eq!(LocalPath::from_str("/"), Err(ParseError::BadPath));
}

#[test]
fn join_adds_one_component() {
    let p = path("a/b");
    assert_eq!(p.join("c").unwrap(), path("a/b/c"));
    assert_eq!(LocalPath::root().join("x").unwrap().to_string(), "x");
}

#[test]
fn join_refuses_what_is_no_component() {
    let p = path("a");
    assert_eq!(p.join(""), Err(ParseError::BadPath));
    assert_eq!(p.join("."), Err(ParseError::BadPath));
    assert_eq!(p.join(".."), Err(ParseError::BadPath));
    assert_eq!(p.join("b/c"), Err(ParseError::BadPath));
}

#[test]
fn absolute_form_is_root_then_path() {
    assert_eq!(path("a/b").to_abs("/work"), "/work/a/b");
    assert_eq!(path("a/b").to_abs("/work/"), "/work/a/b");
    assert_eq!(path("").to_abs("/work"), "/work");
}

#[test]
fn relative_to_a_directory_above() {
    assert_eq!(path("foo/bar/baz").relative_to(&path("foo/bar")), "baz");
    assert_eq!(path("x/y/z.b.c").relative_to(&path("")), "x/y/z.b.c");
}

#[test]
fn relative_to_a_directory_aside() {
    assert_eq!(path("foo/bar/quux").relative_to(&path("foo/bar/baz")), "../quux");
    assert_eq!(path("foo").relative_to(&path("bar")), "../foo");
    assert_eq!(path("foo/bar").relative_to(&path("foo/bar/baz")), "..");
    assert_eq!(path("a").relative_to(&path("b/c/d")), "../../../a");
    assert_eq!(path("a/b").relative_to(&path("a/b")), "");
}

#[test]
fn canonical_path_becomes_local() {
    assert_eq!(LocalPath::from_canonical("/work/src/a.c", "/work"), Ok(path("src/a.c")));
    assert_eq!(LocalPath::from_canonical("/work", "/work"), Ok(LocalPath::root()));
}

#[test]
fn canonical_path_outside_the_workspace_is_refused() {
    assert_eq!(LocalPath::from_canonical("/other/a.c", "/work"), Err(ParseError::BadPath));
    assert_eq!(LocalPath::from_canonical("/", "/work"), Err(ParseError::BadPath));
}

#[test]
fn canonical_path_must_be_absolute_and_plain() {
    assert_eq!(LocalPath::from_canonical("src/a.c", "/work"), Err(ParseError::BadPath));
    assert_eq!(LocalPath::from_canonical("/work/a", "work"), Err(ParseError::BadPath));
    assert_eq!(LocalPath::from_canonical("/work/../a", "/work"), Err(ParseError::BadPath));
    assert_eq!(LocalPath::from_canonical("/work/./a", "/work"), Err(ParseError::BadPath));
}

#[test]
fn same_compares_components() {
    assert!(path("a/b").same(&path("a//b")));
    assert!(!path("a/b").same(&path("a/c")));
    assert!(!path("a/b").same(&path("a")));
}

#[test]
fn order_is_by_components() {
    assert!(path("a/b") < path("a/c"));
    assert!(path("a") < path("a/b"));
    assert!(path("a/z") < path("b"));
}

#[test]
fn precedes_is_the_order_of_paths() {
    let names = ["", "a", "a/b", "a/b/c", "a/c", "a.b", "ab", "b", "B", "é/x", "z"];
    for x in names {
        for y in names {
            assert_eq!(path(x).precedes(&path(y)), path(x) < path(y), "{} before {}", x, y);
        }
    }
}

#[test]
fn presence_goes_by_the_snapshot() {
    let mut files = Snapshot::new();
    files.record(FileStamp::new(path("here"), b"x"));
    assert!(path("here").is_present(&files));
    assert!(!path("gone").is_present(&files));
}
