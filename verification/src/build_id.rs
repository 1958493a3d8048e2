//! Build ids: one 128-bit identifier per top-level invocation, written as a UUID.

use crate::error::ParseError;
use crate::hash::hex_digit;
use vstd::arithmetic::power::pow;
use vstd::prelude::*;

verus! {

/// The value that a text stands for when read as a UUID, in any of the forms that
/// the `uuid` crate accepts; `None` for every other text.
pub uninterp spec fn uuid_of_text(text: Seq<char>) -> Option<u128>;

/// The 32 lowercase hexadecimal digits of a 128-bit value, most significant first.
pub open spec fn hex_of_u128(id: u128) -> Seq<char> {
    Seq::new(32, |i: int| hex_digit((id as int / pow(16, (31 - i) as nat)) % 16))
}

/// The hyphenated lowercase form of a UUID: groups of 8, 4, 4, 4 and 12 digits.
pub open spec fn uuid_text(id: u128) -> Seq<char> {
    let h = hex_of_u128(id);
    h.subrange(0, 8) + seq!['-'] + h.subrange(8, 12) + seq!['-'] + h.subrange(12, 16) + seq!['-']
        + h.subrange(16, 20) + seq!['-'] + h.subrange(20, 32)
}

/// The build id that a text stands for.
pub open spec fn parse_build_id(text: Seq<char>) -> Result<BuildId, ParseError> {
    match uuid_of_text(text) {
        Some(id) => Ok(BuildId(id)),
        None => Err(ParseError::BadBuildId),
    }
}

/// `uuid::Error`: why `Uuid::parse_str` refused a text. Nothing is read from it.
#[verifier::external_type_specification]
#[verifier::external_body]
pub struct ExUuidError(uuid::Error);

/// `Uuid`'s `Display`: the hyphenated lowercase form, which `Uuid::parse_str`
/// reads back to the same value.
#[verifier::external_body]
fn uuid_to_string(id: u128) -> (s: String)
    ensures
        s@ == uuid_text(id),
        uuid_of_text(s@) == Some(id),
{
    uuid::Uuid::from_u128(id).to_string()
}

/// `Uuid::parse_str`: the value of a text that is a UUID, an error for any other.
#[verifier::external_body]
fn uuid_parse_str(s: &str) -> (r: Result<u128, uuid::Error>)
    ensures
        r matches Ok(id) ==> uuid_of_text(s@) == Some(id),
        r is Err ==> uuid_of_text(s@) is None,
{
    match uuid::Uuid::parse_str(s) {
        Ok(u) => Ok(u.as_u128()),
        Err(e) => Err(e),
    }
}

/// Is the value laid out as a random UUID: version 4 in the version field, and
/// `10` in the two variant bits? The other 122 bits are free.
pub open spec fn is_random_uuid(id: u128) -> bool {
    id & 0x0000_0000_0000_f000_c000_0000_0000_0000u128
        == 0x0000_0000_0000_4000_8000_0000_0000_0000u128
}

/// `Uuid::new_v4`: a random UUID. Its version field and its variant bits are
/// those of a random UUID; nothing is known of the other bits.
#[verifier::external_body]
fn uuid_new_v4() -> (id: u128)
    ensures
        is_random_uuid(id),
{
    uuid::Uuid::new_v4().as_u128()
}

/// The identity of one top-level build, handed down to every child process.
#[derive(Clone, Copy, Debug, PartialEq, Eq, Structural, Hash, PartialOrd, Ord)]
pub struct BuildId(pub u128);

impl Default for BuildId {
    fn default() -> (r: Self)
        ensures
            r == BuildId(0),
    {
        BuildId(0)
    }
}

/// What the environment says of the running build: the id it announces, if it
/// announces one that can be read.
pub open spec fn announced_id(var: Option<Seq<char>>) -> Result<Option<BuildId>, ParseError> {
    match var {
        None => Ok(None),
        Some(text) => match parse_build_id(text) {
            Ok(id) => Ok(Some(id)),
            Err(e) => Err(e),
        },
    }
}

/// The view of an optional text.
pub open spec fn text_of(var: Option<&str>) -> Option<Seq<char>> {
    match var {
        Some(s) => Some(s@),
        None => None,
    }
}

impl BuildId {
    /// A fresh random id: a version-4 UUID, which is never the nil id that
    /// `default` gives.
    pub fn new() -> (id: BuildId)
        ensures
            is_random_uuid(id.0),
            id != BuildId(0),
    {
        let value = uuid_new_v4();
        assert(value != 0) by (bit_vector)
            requires
                value & 0x0000_0000_0000_f000_c000_0000_0000_0000u128
                    == 0x0000_0000_0000_4000_8000_0000_0000_0000u128,
        ;
        BuildId(value)
    }

    /// The UUID in hyphenated lowercase form.
    pub fn to_string(&self) -> (s: String)
        ensures
            s@ == uuid_text(self.0),
            parse_build_id(s@) == Ok::<BuildId, ParseError>(*self),
    {
        uuid_to_string(self.0)
    }

    /// Reads a build id from a UUID in text form.
    pub fn from_str(s: &str) -> (r: Result<BuildId, ParseError>)
        ensures
            r == parse_build_id(s@),
    {
        match uuid_parse_str(s) {
            Ok(id) => Ok(BuildId(id)),
            Err(_) => Err(ParseError::BadBuildId),
        }
    }

    /// The id that the environment announces; `var` is the value of the
    /// variable that carries it, if it is set.
    pub fn current2(var: Option<&str>) -> (r: Result<Option<BuildId>, ParseError>)
        ensures
            r == announced_id(text_of(var)),
    {
        match var {
            None => Ok(None),
            Some(text) => match BuildId::from_str(text) {
                Ok(id) => Ok(Some(id)),
                Err(e) => Err(e),
            },
        }
    }

    /// The id of the running build: the one the environment announces, or a
    /// fresh one when it announces none.
    pub fn current(var: Option<&str>) -> (r: Result<BuildId, ParseError>)
        ensures
            announced_id(text_of(var)) matches Ok(Some(id)) ==> r == Ok::<BuildId, ParseError>(id),
            announced_id(text_of(var)) matches Err(e) ==> r == Err::<BuildId, ParseError>(e),
            announced_id(text_of(var)) matches Ok(None) ==> (r matches Ok(id) && is_random_uuid(
                id.0,
            ) && id != BuildId(0)),
    {
        match BuildId::current2(var) {
            Ok(Some(id)) => Ok(id),
            Ok(None) => Ok(BuildId::new()),
            Err(e) => Err(e),
        }
    }

    /// Is this the id of the running build? Without an announced id that can be
    /// read, it is not.
    pub fn is_current(self, var: Option<&str>) -> (r: bool)
        ensures
            r == (announced_id(text_of(var)) == Ok::<Option<BuildId>, ParseError>(Some(self))),
    {
        match BuildId::current2(var) {
            Ok(Some(id)) => id.0 == self.0,
            _ => false,
        }
    }
}

} // verus!
