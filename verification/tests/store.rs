use redux::artifacts::{Artifacts, FileCopy};
use redux::error::ParseError;
use redux::filestamp::FileStamp;
use redux::hash::ContentHash;
use redux::local_path::LocalPath;

const EMPTY_HEX: &str = "af1349b9f5f9a1a6a0404dea36dcc9499bcb25c9adc112b7cc9a93cae41f3262";

fn store_stamp(path: &str, contents: &[u8]) -> FileStamp {
    FileStamp::new(LocalPath::from_str(path).unwrap(), contents)
}

#[test]
fn store_knows_the_names_it_was_given() {
    let hi = ContentHash::of(b"hi");
    let store = Artifacts::new(&vec![EMPTY_HEX.to_string(), hi.to_hex()]).unwrap();
    assert!(store.contains(&ContentHash::of(b"")));
    assert!(store.contains(&hi));
    assert!(!store.contains(&ContentHash::of(b"ho")));
}

#[test]
fn empty_store() {
    let store = Artifacts::new(&vec![]).unwrap();
    assert!(!store.contains(&ContentHash::of(b"")));
}

#[test]
fn name_that_is_no_hash_is_refused() {
    let r = Artifacts::new(&vec![EMPTY_HEX.to_string(), "README".to_string()]);
    assert!(matches!(r, Err(ParseError::BadHash)));
}

#[test]
fn store_path_is_directory_and_hex() {
    assert_eq!(
        Artifacts::store_path("/w/.git/redux/artifacts", &ContentHash::of(b"")),
        format!("/w/.git/redux/artifacts/{}", EMPTY_HEX)
    );
}

#[test]
fn insert_copies_a_new_file_into_the_store() {
    let mut store = Artifacts::new(&vec![]).unwrap();
    let s = store_stamp("out/a", b"");
    let copy = store.insert(&s, "/w", "/s");
    assert_eq!(
        copy,
        Some(FileCopy { from: "/w/out/a".to_string(), to: format!("/s/{}", EMPTY_HEX) })
    );
    assert!(store.contains(&s.hash));
}

#[test]
fn insert_is_idempotent() {
    let mut store = Artifacts::new(&vec![]).unwrap();
    let s = store_stamp("out/a", b"x");
    assert!(store.insert(&s, "/w", "/s").is_some());
    assert_eq!(store.insert(&s, "/w", "/s"), None);
    assert_eq!(store.insert(&store_stamp("elsewhere", b"x"), "/w", "/s"), None);
    assert!(store.contains(&s.hash));
}

#[test]
fn insert_then_restore_reads_what_was_written() {
    let mut store = Artifacts::new(&vec![]).unwrap();
    let s = store_stamp("out/a", b"payload");
    let put = store.insert(&s, "/w", "/s").unwrap();
    let get = store.restore(&s, "/w", "/s");
    assert_eq!(get.from, put.to);
    assert_eq!(get.to, put.from);
    assert_eq!(get.from, format!("/s/{}", s.hash.to_hex()));
    assert_eq!(get.to, "/w/out/a");
}
