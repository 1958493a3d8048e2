//! Why a piece of text was not accepted.

use vstd::prelude::*;

verus! {

/// The reason a textual form was rejected.
#[derive(Clone, Copy, Debug, PartialEq, Eq, Structural)]
pub enum ParseError {
    /// A path is absolute, or one of its components is `..`.
    BadPath,
    /// A content hash is not 64 hexadecimal digits.
    BadHash,
    /// A file stamp has no `@`.
    NoAtSign,
    /// An environment entry has no `=`.
    NoEqualsSign,
    /// A job has no `(`.
    NoParen,
    /// A build id is not a UUID.
    BadBuildId,
    /// A point in time is not an RFC 3339 timestamp.
    BadTimestamp,
    /// A line starts with a tag that is not known.
    UnknownTag,
    /// A trace file does not start with a `job` line.
    MissingHeader,
}

} // verus!
