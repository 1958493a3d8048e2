//! Points in time, counted from the Unix epoch and written as RFC 3339 timestamps.

use crate::error::ParseError;
use vstd::prelude::*;

verus! {

/// The RFC 3339 text for a point in time, in UTC, given as seconds and
/// nanoseconds since the Unix epoch.
pub uninterp spec fn rfc3339_text(secs: u64, nanos: u32) -> Seq<char>;

/// The point in time that a text stands for when read as an RFC 3339 timestamp
/// in UTC; `None` for every other text.
pub uninterp spec fn rfc3339_of_text(text: Seq<char>) -> Option<(u64, u32)>;

/// How long a span of time is, written for people.
pub uninterp spec fn duration_text(secs: u64, nanos: u32) -> Seq<char>;

/// The first second that can no longer be written: the start of year 10000.
pub const END_OF_TIME: u64 = 253_402_300_800;

/// The number of nanoseconds in a second.
pub const NANOS_PER_SEC: u32 = 1_000_000_000;

/// `humantime::TimestampError`: why a text is no timestamp. Nothing is read
/// from it.
#[verifier::external_type_specification]
#[verifier::external_body]
pub struct ExTimestampError(humantime::TimestampError);

/// `humantime::format_rfc3339`: the text of a time before year 10000, which
/// `humantime::parse_rfc3339_weak` reads back to the same time.
#[verifier::external_body]
fn format_rfc3339(secs: u64, nanos: u32) -> (s: String)
    requires
        secs < END_OF_TIME,
        nanos < NANOS_PER_SEC,
    ensures
        s@ == rfc3339_text(secs, nanos),
        rfc3339_of_text(s@) == Some((secs, nanos)),
{
    let t = std::time::UNIX_EPOCH + std::time::Duration::new(secs, nanos);
    humantime::format_rfc3339(t).to_string()
}

/// `humantime::parse_rfc3339_weak`: the time of a text that is a timestamp, always
/// before year 10000; an error for any other text.
#[verifier::external_body]
fn parse_rfc3339_weak(s: &str) -> (r: Result<(u64, u32), humantime::TimestampError>)
    ensures
        r matches Ok(t) ==> rfc3339_of_text(s@) == Some(t) && t.0 < END_OF_TIME && t.1
            < NANOS_PER_SEC,
        r is Err ==> rfc3339_of_text(s@) is None,
{
    match humantime::parse_rfc3339_weak(s) {
        Ok(t) => {
            let d = t.duration_since(std::time::UNIX_EPOCH).unwrap_or_default();
            Ok((d.as_secs(), d.subsec_nanos()))
        },
        Err(e) => Err(e),
    }
}

/// `humantime::format_duration`: a span of time in words, such as `2h 37m`.
#[verifier::external_body]
fn format_duration(secs: u64, nanos: u32) -> (s: String)
    requires
        nanos < NANOS_PER_SEC,
    ensures
        s@ == duration_text(secs, nanos),
{
    humantime::format_duration(std::time::Duration::new(secs, nanos)).to_string()
}

/// A point in time: seconds and nanoseconds since the Unix epoch.
#[derive(Clone, Copy, Debug, PartialEq, Eq, Structural, Hash, PartialOrd, Ord)]
pub struct Timestamp {
    pub secs: u64,
    pub nanos: u32,
}

/// A span of time: whole seconds and the nanoseconds beyond them.
#[derive(Clone, Copy, Debug, PartialEq, Eq, Structural, Hash, PartialOrd, Ord)]
pub struct Span {
    pub secs: u64,
    pub nanos: u32,
}

/// A point in time as a count of nanoseconds since the epoch.
pub open spec fn nanos_of(secs: u64, nanos: u32) -> int {
    secs * 1_000_000_000 + nanos
}

/// Is `a` strictly before `b`?
pub open spec fn earlier(a: Timestamp, b: Timestamp) -> bool {
    nanos_of(a.secs, a.nanos) < nanos_of(b.secs, b.nanos)
}

/// The earlier of two points in time.
pub open spec fn earliest(a: Timestamp, b: Timestamp) -> Timestamp {
    if earlier(b, a) {
        b
    } else {
        a
    }
}

/// A time that can be written: before year 10000, with less than a second of
/// nanoseconds.
pub open spec fn writable(t: Timestamp) -> bool {
    t.secs < END_OF_TIME && t.nanos < NANOS_PER_SEC
}

/// The point in time that a text stands for.
pub open spec fn parse_timestamp(text: Seq<char>) -> Result<Timestamp, ParseError> {
    match rfc3339_of_text(text) {
        Some(t) => Ok(Timestamp { secs: t.0, nanos: t.1 }),
        None => Err(ParseError::BadTimestamp),
    }
}

/// The time from `now` until `t`, in nanoseconds; zero once `t` has passed.
pub open spec fn nanos_until(t: Timestamp, now: Timestamp) -> int {
    let d = nanos_of(t.secs, t.nanos) - nanos_of(now.secs, now.nanos);
    if d < 0 {
        0
    } else {
        d
    }
}

/// The time from `now` until `t` as a span; a span too long to be counted in
/// seconds is cut to the longest that can.
pub open spec fn span_until(t: Timestamp, now: Timestamp) -> Span {
    let d = nanos_until(t, now);
    Span {
        secs: if d / 1_000_000_000 > u64::MAX {
            u64::MAX
        } else {
            (d / 1_000_000_000) as u64
        },
        nanos: (d % 1_000_000_000) as u32,
    }
}

impl Timestamp {
    /// Is this point in time strictly before `other`?
    pub fn before(&self, other: &Timestamp) -> (r: bool)
        ensures
            r == earlier(*self, *other),
    {
        let a: u128 = (self.secs as u128) * 1_000_000_000 + (self.nanos as u128);
        let b: u128 = (other.secs as u128) * 1_000_000_000 + (other.nanos as u128);
        a < b
    }

    /// The earlier of the two.
    pub fn min(self, other: Timestamp) -> (r: Timestamp)
        ensures
            r == earliest(self, other),
    {
        if other.before(&self) {
            other
        } else {
            self
        }
    }

    /// The time that is left from `now` until this point; nothing once it has
    /// passed.
    pub fn remaining(&self, now: &Timestamp) -> (r: Span)
        ensures
            r == span_until(*self, *now),
            r.nanos < NANOS_PER_SEC,
            self.nanos < NANOS_PER_SEC ==> nanos_of(r.secs, r.nanos) == nanos_until(*self, *now),
    {
        let a: u128 = (self.secs as u128) * 1_000_000_000 + (self.nanos as u128);
        let b: u128 = (now.secs as u128) * 1_000_000_000 + (now.nanos as u128);
        let d: u128 = if a > b {
            a - b
        } else {
            0
        };
        let secs: u128 = d / 1_000_000_000;
        let nanos: u128 = d % 1_000_000_000;
        if secs > u64::MAX as u128 {
            Span { secs: u64::MAX, nanos: nanos as u32 }
        } else {
            Span { secs: secs as u64, nanos: nanos as u32 }
        }
    }

    /// The point in time `span` later, if it can still be written.
    pub fn after(&self, span: &Span) -> (r: Option<Timestamp>)
        ensures
            r matches Some(t) ==> writable(t) && nanos_of(t.secs, t.nanos) == nanos_of(
                self.secs,
                self.nanos,
            ) + nanos_of(span.secs, span.nanos),
            r is None ==> nanos_of(self.secs, self.nanos) + nanos_of(span.secs, span.nanos)
                >= nanos_of(END_OF_TIME, 0),
    {
        let a: u128 = (self.secs as u128) * 1_000_000_000 + (self.nanos as u128);
        let b: u128 = (span.secs as u128) * 1_000_000_000 + (span.nanos as u128);
        let sum: u128 = a + b;
        let secs: u128 = sum / 1_000_000_000;
        let nanos: u128 = sum % 1_000_000_000;
        if secs >= END_OF_TIME as u128 {
            None
        } else {
            Some(Timestamp { secs: secs as u64, nanos: nanos as u32 })
        }
    }

    /// The RFC 3339 form of a time that can be written.
    pub fn to_string(&self) -> (s: String)
        requires
            writable(*self),
        ensures
            s@ == rfc3339_text(self.secs, self.nanos),
            parse_timestamp(s@) == Ok::<Timestamp, ParseError>(*self),
    {
        format_rfc3339(self.secs, self.nanos)
    }

    /// Reads an RFC 3339 timestamp in UTC.
    pub fn from_str(s: &str) -> (r: Result<Timestamp, ParseError>)
        ensures
            r == parse_timestamp(s@),
            r matches Ok(t) ==> writable(t),
    {
        match parse_rfc3339_weak(s) {
            Ok(t) => Ok(Timestamp { secs: t.0, nanos: t.1 }),
            Err(_) => Err(ParseError::BadTimestamp),
        }
    }
}

impl Span {
    /// The span in words, such as `2h 37m`.
    pub fn to_string(&self) -> (s: String)
        requires
            self.nanos < NANOS_PER_SEC,
        ensures
            s@ == duration_text(self.secs, self.nanos),
    {
        format_duration(self.secs, self.nanos)
    }
}

} // verus!
