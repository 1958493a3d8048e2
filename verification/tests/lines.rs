use redux::build_id::BuildId;
use redux::error::ParseError;
use redux::filestamp::FileStamp;
use redux::hash::ContentHash;
use redux::job::{EnvVar, JobSpec};
use redux::local_path::LocalPath;
use redux::timestamp::{Span, Timestamp};
use redux::trace::TraceFileLine;

const EMPTY_HEX: &str = "af1349b9f5f9a1a6a0404dea36dcc9499bcb25c9adc112b7cc9a93cae41f3262";
const ID: u128 = 0xa1a2a3a4b1b2c1c2d1d2d3d4d5d6d7d8;

fn line_stamp(path: &str, contents: &[u8]) -> FileStamp {
    FileStamp::new(LocalPath::from_str(path).unwrap(), contents)
}

fn reads_back(line: TraceFileLine) {
    let text = line.to_string();
    assert!(!text.contains('\n'));
    assert_eq!(TraceFileLine::from_str(&text), Ok(line));
}

#[test]
fn build_id_is_written_as_a_hyphenated_uuid() {
    assert_eq!(BuildId(ID).to_string(), "a1a2a3a4-b1b2-c1c2-d1d2-d3d4d5d6d7d8");
    assert_eq!(BuildId(0).to_string(), "00000000-0000-0000-0000-000000000000");
    assert_eq!(BuildId::default(), BuildId(0));
}

#[test]
fn build_id_reads_the_forms_of_a_uuid() {
    assert_eq!(BuildId::from_str("a1a2a3a4-b1b2-c1c2-d1d2-d3d4d5d6d7d8"), Ok(BuildId(ID)));
    assert_eq!(BuildId::from_str("a1a2a3a4b1b2c1c2d1d2d3d4d5d6d7d8"), Ok(BuildId(ID)));
    assert_eq!(BuildId::from_str("A1A2A3A4-B1B2-C1C2-D1D2-D3D4D5D6D7D8"), Ok(BuildId(ID)));
    assert_eq!(BuildId::from_str("not a uuid"), Err(ParseError::BadBuildId));
    assert_eq!(BuildId::from_str(""), Err(ParseError::BadBuildId));
}

#[test]
fn fresh_build_ids_differ() {
    let a = BuildId::new();
    let b = BuildId::new();
    assert_ne!(a, b);
    assert_eq!(BuildId::from_str(&a.to_string()), Ok(a));
}

#[test]
fn fresh_build_id_is_a_random_uuid() {
    for _ in 0..20 {
        let id = BuildId::new();
        assert_ne!(id, BuildId::default());
        assert_eq!((id.0 >> 76) & 0xf, 4);
        assert_eq!((id.0 >> 62) & 0x3, 2);
        let text = id.to_string();
        assert_eq!(text.as_bytes()[14], b'4');
        assert!(b"89ab".contains(&text.as_bytes()[19]));
    }
}

#[test]
fn current_build_id_is_the_announced_one() {
    let text = BuildId(ID).to_string();
    assert_eq!(BuildId::current(Some(&text)), Ok(BuildId(ID)));
    assert_eq!(BuildId::current2(Some(&text)), Ok(Some(BuildId(ID))));
    assert_eq!(BuildId::current2(None), Ok(None));
    let fresh = BuildId::current(None).unwrap();
    assert_ne!(fresh, BuildId::default());
    assert_eq!((fresh.0 >> 76) & 0xf, 4);
    assert_eq!((fresh.0 >> 62) & 0x3, 2);
    assert_ne!(BuildId::current(None), Ok(fresh));
    assert_eq!(BuildId::current(Some("junk")), Err(ParseError::BadBuildId));
}

#[test]
fn is_current_needs_an_announced_id() {
    let text = BuildId(ID).to_string();
    assert!(BuildId(ID).is_current(Some(&text)));
    assert!(!BuildId(ID + 1).is_current(Some(&text)));
    assert!(!BuildId(ID).is_current(None));
    assert!(!BuildId(ID).is_current(Some("junk")));
}

#[test]
fn timestamp_is_written_as_rfc3339() {
    assert_eq!(Timestamp { secs: 1518568087, nanos: 0 }.to_string(), "2018-02-14T00:28:07Z");
    assert_eq!(Timestamp { secs: 0, nanos: 0 }.to_string(), "1970-01-01T00:00:00Z");
    assert_eq!(
        Timestamp { secs: 1000000000, nanos: 133000000 }.to_string(),
        "2001-09-09T01:46:40.133000000Z"
    );
    assert_eq!(
        Timestamp { secs: 253_402_300_799, nanos: 0 }.to_string(),
        "9999-12-31T23:59:59Z"
    );
}

#[test]
fn timestamp_reads_rfc3339() {
    let t = Timestamp { secs: 1518568087, nanos: 0 };
    assert_eq!(Timestamp::from_str("2018-02-14T00:28:07Z"), Ok(t));
    assert_eq!(Timestamp::from_str("2018-02-14 00:28:07"), Ok(t));
    assert_eq!(
        Timestamp::from_str("2018-02-14T00:28:07.5Z"),
        Ok(Timestamp { secs: 1518568087, nanos: 500_000_000 })
    );
    assert_eq!(Timestamp::from_str("yesterday"), Err(ParseError::BadTimestamp));
    assert_eq!(Timestamp::from_str("1969-12-31T23:59:59Z"), Err(ParseError::BadTimestamp));
}

#[test]
fn timestamp_text_reads_back() {
    for t in [
        Timestamp { secs: 0, nanos: 1 },
        Timestamp { secs: 1700000000, nanos: 999_999_999 },
        Timestamp { secs: 253_402_300_799, nanos: 0 },
    ] {
        assert_eq!(Timestamp::from_str(&t.to_string()), Ok(t));
    }
}

#[test]
fn timestamps_are_compared_as_times() {
    let a = Timestamp { secs: 10, nanos: 5 };
    let b = Timestamp { secs: 10, nanos: 6 };
    let c = Timestamp { secs: 11, nanos: 0 };
    assert!(a.before(&b));
    assert!(b.before(&c));
    assert!(!b.before(&a));
    assert!(!a.before(&a));
    assert_eq!(a.min(b), a);
    assert_eq!(c.min(b), b);
}

#[test]
fn remaining_time_is_never_negative() {
    let t = Timestamp { secs: 100, nanos: 200 };
    assert_eq!(
        t.remaining(&Timestamp { secs: 40, nanos: 500 }),
        Span { secs: 59, nanos: 999_999_700 }
    );
    assert_eq!(t.remaining(&Timestamp { secs: 100, nanos: 200 }), Span { secs: 0, nanos: 0 });
    assert_eq!(t.remaining(&Timestamp { secs: 500, nanos: 0 }), Span { secs: 0, nanos: 0 });
}

#[test]
fn later_time_is_found_by_adding() {
    let now = Timestamp { secs: 100, nanos: 900_000_000 };
    assert_eq!(
        now.after(&Span { secs: 60, nanos: 200_000_000 }),
        Some(Timestamp { secs: 161, nanos: 100_000_000 })
    );
    assert_eq!(now.after(&Span { secs: 253_402_300_800, nanos: 0 }), None);
    assert_eq!(now.after(&Span { secs: u64::MAX, nanos: 0 }), None);
}

#[test]
fn span_is_written_in_words() {
    assert_eq!(Span { secs: 9420, nanos: 0 }.to_string(), "2h 37m");
    assert_eq!(Span { secs: 0, nanos: 32_000_000 }.to_string(), "32ms");
    assert_eq!(Span { secs: 0, nanos: 0 }.to_string(), "0s");
}

#[test]
fn line_texts() {
    let s = line_stamp("a/b", b"");
    assert_eq!(
        TraceFileLine::Source(s.clone()).to_string(),
        format!("source a/b@{}", EMPTY_HEX)
    );
    assert_eq!(
        TraceFileLine::Generated(s.clone()).to_string(),
        format!("generated a/b@{}", EMPTY_HEX)
    );
    assert_eq!(
        TraceFileLine::Produced(s).to_string(),
        format!("produced a/b@{}", EMPTY_HEX)
    );
    assert_eq!(
        TraceFileLine::EnvVar(EnvVar { key: "K".to_string(), val: "v w".to_string() }).to_string(),
        "env_var K=v w"
    );
    assert_eq!(
        TraceFileLine::Data(ContentHash::of(b"")).to_string(),
        format!("data {}", EMPTY_HEX)
    );
    assert_eq!(
        TraceFileLine::ValidFor(BuildId(ID)).to_string(),
        "valid_for a1a2a3a4-b1b2-c1c2-d1d2-d3d4d5d6d7d8"
    );
    assert_eq!(
        TraceFileLine::ValidUntil(Timestamp { secs: 1518568087, nanos: 0 }).to_string(),
        "valid_until 2018-02-14T00:28:07Z"
    );
    let job = JobSpec {
        rule: LocalPath::from_str("a.do").unwrap(),
        target: LocalPath::from_str("a").unwrap(),
        env: vec![],
    };
    assert_eq!(TraceFileLine::Job(job).to_string(), "job a.do(a)");
}

#[test]
fn job_line_reads_back() {
    reads_back(TraceFileLine::Job(JobSpec {
        rule: LocalPath::from_str("d/default.c.do").unwrap(),
        target: LocalPath::from_str("d/e/f.c").unwrap(),
        env: vec![("CC".to_string(), "gcc".to_string())],
    }));
}

#[test]
fn source_line_reads_back() {
    reads_back(TraceFileLine::Source(line_stamp("src/with space.c", b"1")));
}

#[test]
fn generated_line_reads_back() {
    reads_back(TraceFileLine::Generated(line_stamp("out/lib.a", b"2")));
}

#[test]
fn produced_line_reads_back() {
    reads_back(TraceFileLine::Produced(line_stamp("out/prog", b"3")));
}

#[test]
fn env_var_line_reads_back() {
    reads_back(TraceFileLine::EnvVar(EnvVar {
        key: "PATH".to_string(),
        val: "/bin:/usr/bin = here".to_string(),
    }));
}

#[test]
fn data_line_reads_back() {
    reads_back(TraceFileLine::Data(ContentHash::of(b"streamed")));
}

#[test]
fn valid_for_line_reads_back() {
    reads_back(TraceFileLine::ValidFor(BuildId(ID)));
    reads_back(TraceFileLine::ValidFor(BuildId(0)));
    reads_back(TraceFileLine::ValidFor(BuildId(u128::MAX)));
}

#[test]
fn valid_until_line_reads_back() {
    reads_back(TraceFileLine::ValidUntil(Timestamp { secs: 1518568087, nanos: 0 }));
    reads_back(TraceFileLine::ValidUntil(Timestamp { secs: 1, nanos: 123_456_789 }));
}

#[test]
fn line_with_unknown_tag_is_refused() {
    assert_eq!(TraceFileLine::from_str("frobnicate x"), Err(ParseError::UnknownTag));
    assert_eq!(TraceFileLine::from_str(""), Err(ParseError::UnknownTag));
    assert_eq!(TraceFileLine::from_str("Source a@b"), Err(ParseError::UnknownTag));
}

#[test]
fn line_with_bad_payload_is_refused() {
    assert_eq!(TraceFileLine::from_str("source nothing"), Err(ParseError::NoAtSign));
    assert_eq!(TraceFileLine::from_str("source"), Err(ParseError::NoAtSign));
    assert_eq!(TraceFileLine::from_str("data 1234"), Err(ParseError::BadHash));
    assert_eq!(TraceFileLine::from_str("env_var novalue"), Err(ParseError::NoEqualsSign));
    assert_eq!(TraceFileLine::from_str("valid_for me"), Err(ParseError::BadBuildId));
    assert_eq!(TraceFileLine::from_str("valid_until then"), Err(ParseError::BadTimestamp));
    assert_eq!(TraceFileLine::from_str("job a.do"), Err(ParseError::NoParen));
}
