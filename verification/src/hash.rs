//! Content hashes: 256-bit tags of byte sequences, written as lowercase hex.

use crate::error::ParseError;
use vstd::prelude::*;

verus! {

/// The BLAKE3 digest of a byte sequence: 32 bytes that depend on the input alone.
pub uninterp spec fn blake3_digest(input: Seq<u8>) -> Seq<u8>;

/// The lowercase hexadecimal digit for a value below 16.
pub open spec fn hex_digit(n: int) -> char {
    if n < 10 {
        ((48 + n) as u8) as char
    } else {
        ((87 + n) as u8) as char
    }
}

/// The value of a hexadecimal digit, either case.
pub open spec fn hex_value(c: char) -> Option<int> {
    let n = c as int;
    if 48 <= n <= 57 {
        Some(n - 48)
    } else if 97 <= n <= 102 {
        Some(n - 87)
    } else if 65 <= n <= 70 {
        Some(n - 55)
    } else {
        None
    }
}

/// Two lowercase hexadecimal digits per byte, high digit first.
pub open spec fn hex_text(bytes: Seq<u8>) -> Seq<char> {
    Seq::new(
        2 * bytes.len(),
        |i: int|
            if i % 2 == 0 {
                hex_digit(bytes[i / 2] as int / 16)
            } else {
                hex_digit(bytes[i / 2] as int % 16)
            },
    )
}

/// Is every character a hexadecimal digit?
pub open spec fn all_hex(text: Seq<char>) -> bool {
    forall|i: int| 0 <= i < text.len() ==> (#[trigger] hex_value(text[i])) is Some
}

/// The 32 bytes that 64 hexadecimal digits stand for.
pub open spec fn parse_hex(text: Seq<char>) -> Option<Seq<u8>> {
    if text.len() == 64 && all_hex(text) {
        Some(
            Seq::new(
                32,
                |i: int| (16 * hex_value(text[2 * i])->0 + hex_value(text[2 * i + 1])->0) as u8,
            ),
        )
    } else {
        None
    }
}

/// The textual form of a hash, read back: the bytes or the reason for refusing.
pub open spec fn parse_hash(text: Seq<char>) -> Result<Seq<u8>, ParseError> {
    match parse_hex(text) {
        Some(bytes) => Ok(bytes),
        None => Err(ParseError::BadHash),
    }
}

/// Reading the hexadecimal form of 32 bytes gives the bytes back.
pub proof fn lemma_hex_round_trip(bytes: Seq<u8>)
    requires
        bytes.len() == 32,
    ensures
        parse_hex(hex_text(bytes)) == Some(bytes),
        hex_text(bytes).len() == 64,
        all_hex(hex_text(bytes)),
{
    let text = hex_text(bytes);
    assert forall|i: int| 0 <= i < text.len() implies (#[trigger] hex_value(text[i])) is Some by {
        lemma_hex_digit(bytes[i / 2] as int / 16);
        lemma_hex_digit(bytes[i / 2] as int % 16);
    }
    let back = parse_hex(text)->0;
    assert forall|i: int| 0 <= i < 32 implies back[i] == bytes[i] by {
        lemma_hex_digit(bytes[i] as int / 16);
        lemma_hex_digit(bytes[i] as int % 16);
        assert(text[2 * i] == hex_digit(bytes[(2 * i) / 2] as int / 16));
        assert(text[2 * i + 1] == hex_digit(bytes[(2 * i + 1) / 2] as int % 16));
    }
    assert(back =~= bytes);
}

/// A digit stands for the value it was made from.
pub proof fn lemma_hex_digit(n: int)
    requires
        0 <= n < 16,
    ensures
        hex_value(hex_digit(n)) == Some(n),
{
}

/// `blake3::HexError`: why `Hash::from_hex` refused a text. Nothing is read from
/// it.
#[verifier::external_type_specification]
#[verifier::external_body]
pub struct ExHexError(blake3::HexError);

/// `blake3::hash`: the digest is a function of the input bytes and nothing else.
#[verifier::external_body]
fn blake3_hash(input: &[u8]) -> (out: [u8; 32])
    ensures
        out@ == blake3_digest(input@),
{
    *blake3::hash(input).as_bytes()
}

/// `blake3::Hash::to_hex`: two lowercase hexadecimal digits for each of the 32 bytes.
#[verifier::external_body]
fn blake3_to_hex(bytes: &[u8; 32]) -> (s: String)
    ensures
        s@ == hex_text(bytes@),
{
    blake3::Hash::from_bytes(*bytes).to_hex().to_string()
}

/// `blake3::Hash::from_hex`: accepts exactly 64 hexadecimal digits of either case
/// and gives the bytes they stand for.
#[verifier::external_body]
fn blake3_from_hex(s: &str) -> (r: Result<[u8; 32], blake3::HexError>)
    ensures
        r matches Ok(b) ==> parse_hex(s@) == Some(b@),
        r is Err ==> parse_hex(s@) is None,
{
    match blake3::Hash::from_hex(s) {
        Ok(h) => Ok(*h.as_bytes()),
        Err(e) => Err(e),
    }
}

/// The hash of a byte sequence.
#[derive(Clone, Copy, Debug, PartialEq, Eq, Hash, PartialOrd, Ord)]
pub struct ContentHash {
    pub bytes: [u8; 32],
}

impl View for ContentHash {
    type V = Seq<u8>;

    open spec fn view(&self) -> Seq<u8> {
        self.bytes@
    }
}

impl ContentHash {
    /// Hashes `data`.
    pub fn of(data: &[u8]) -> (h: ContentHash)
        ensures
            h@ == blake3_digest(data@),
    {
        ContentHash { bytes: blake3_hash(data) }
    }

    /// The hash with the given bytes.
    pub fn from_bytes(bytes: [u8; 32]) -> (h: ContentHash)
        ensures
            h@ == bytes@,
    {
        ContentHash { bytes }
    }

    /// The 64 lowercase hexadecimal digits of the hash.
    pub fn to_hex(&self) -> (s: String)
        ensures
            s@ == hex_text(self@),
    {
        blake3_to_hex(&self.bytes)
    }

    /// The textual form of the hash: its hexadecimal digits.
    pub fn to_string(&self) -> (s: String)
        ensures
            s@ == hex_text(self@),
    {
        self.to_hex()
    }

    /// The first eight hexadecimal digits, for summaries meant for people.
    pub fn short(&self) -> (s: String)
        ensures
            s@ == hex_text(self@).take(8),
    {
        let full = crate::text::chars_of(self.to_hex().as_str());
        let head = crate::text::slice(&full, 0, 8);
        crate::text::string_of(&head)
    }

    /// Reads 64 hexadecimal digits, upper or lower case.
    pub fn from_hex(s: &str) -> (r: Result<ContentHash, ParseError>)
        ensures
            r matches Ok(h) ==> parse_hash(s@) == Ok::<Seq<u8>, ParseError>(h@),
            r matches Err(e) ==> parse_hash(s@) == Err::<Seq<u8>, ParseError>(e),
    {
        match blake3_from_hex(s) {
            Ok(bytes) => Ok(ContentHash { bytes }),
            Err(_) => Err(ParseError::BadHash),
        }
    }

    /// Reads the textual form of a hash.
    pub fn from_str(s: &str) -> (r: Result<ContentHash, ParseError>)
        ensures
            r matches Ok(h) ==> parse_hash(s@) == Ok::<Seq<u8>, ParseError>(h@),
            r matches Err(e) ==> parse_hash(s@) == Err::<Seq<u8>, ParseError>(e),
    {
        ContentHash::from_hex(s)
    }

    /// Are the two hashes the same 32 bytes?
    pub fn same(&self, other: &ContentHash) -> (r: bool)
        ensures
            r == (self@ == other@),
    {
        let mut i: usize = 0;
        while i < 32
            invariant
                i <= 32,
                forall|j: int| 0 <= j < i ==> self.bytes@[j] == other.bytes@[j],
            decreases 32 - i,
        {
            if self.bytes[i] != other.bytes[i] {
                return false;
            }
            i += 1;
        }
        assert(self.bytes@ =~= other.bytes@);
        true
    }
}

} // verus!
