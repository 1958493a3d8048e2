//! File stamps: a path together with the hash of what the file held.

use crate::error::ParseError;
use crate::hash::{blake3_digest, hex_text, lemma_hex_round_trip, parse_hash, ContentHash};
use crate::local_path::{
    abs_text, lemma_path_round_trip, parse_path, path_text, valid_path, LocalPath,
};
use crate::text::{
    chars_of, find, lemma_first_index_concat, lemma_join_lacks, none_contains, push_str, slice,
    split_once, string_of, views,
};
use vstd::prelude::*;
use vstd::string::*;

verus! {

/// What a file stamp says: which path held which bytes, by their hash.
pub struct StampModel {
    pub path: Seq<Seq<char>>,
    pub hash: Seq<u8>,
}

/// The textual form of a stamp: `path@hex`.
pub open spec fn stamp_text(s: StampModel) -> Seq<char> {
    path_text(s.path) + seq!['@'] + hex_text(s.hash)
}

/// The stamp that a text stands for: the path before the first `@`, the hash
/// after it.
pub open spec fn parse_stamp(text: Seq<char>) -> Result<StampModel, ParseError> {
    match split_once(text, '@') {
        None => Err(ParseError::NoAtSign),
        Some((path, hash)) => match parse_path(path) {
            Err(e) => Err(e),
            Ok(path) => match parse_hash(hash) {
                Err(e) => Err(e),
                Ok(hash) => Ok(StampModel { path, hash }),
            },
        },
    }
}

/// A stamp whose text can be read back: a valid path without `@`, and 32 bytes.
pub open spec fn plain_stamp(s: StampModel) -> bool {
    valid_path(s.path) && none_contains(s.path, '@') && s.hash.len() == 32
}

/// Writing a stamp and reading the text gives the stamp back.
pub proof fn lemma_stamp_round_trip(s: StampModel)
    requires
        plain_stamp(s),
    ensures
        parse_stamp(stamp_text(s)) == Ok::<StampModel, ParseError>(s),
{
    lemma_join_lacks(s.path, '/', '@');
    lemma_first_index_concat(path_text(s.path), '@', hex_text(s.hash));
    lemma_path_round_trip(s.path);
    lemma_hex_round_trip(s.hash);
}

/// A path and the hash of the bytes found there.
#[derive(Debug, PartialEq, Eq, Hash, PartialOrd, Ord)]
pub struct FileStamp {
    pub path: LocalPath,
    pub hash: ContentHash,
}

impl View for FileStamp {
    type V = StampModel;

    open spec fn view(&self) -> StampModel {
        StampModel { path: self.path@, hash: self.hash@ }
    }
}

impl Clone for FileStamp {
    fn clone(&self) -> (r: Self)
        ensures
            r@ == self@,
    {
        FileStamp { path: self.path.clone(), hash: self.hash }
    }
}

/// Why a stamp could not be checked.
#[derive(Clone, Copy, Debug, PartialEq, Eq, Structural)]
pub enum StampError {
    /// There is no file at the stamp's path.
    Missing,
}

impl FileStamp {
    /// The stamp of the file at `path`, given the bytes it holds.
    pub fn new(path: LocalPath, contents: &[u8]) -> (s: FileStamp)
        ensures
            s@ == (StampModel { path: path@, hash: blake3_digest(contents@) }),
    {
        FileStamp { path, hash: ContentHash::of(contents) }
    }

    /// The absolute form of the stamp's path below `root`.
    pub fn abs_path(&self, root: &str) -> (s: String)
        ensures
            s@ == abs_text(root@, self@.path),
    {
        self.path.to_abs(root)
    }

    /// Does the file still hold what the stamp recorded? `contents` is what the
    /// file holds now, or `None` when there is no file: that is a failure, not
    /// `false`.
    pub fn is_valid(&self, contents: Option<&[u8]>) -> (r: Result<bool, StampError>)
        ensures
            contents matches Some(bytes) ==> r == Ok::<bool, StampError>(
                blake3_digest(bytes@) == self@.hash,
            ),
            contents is None ==> r == Err::<bool, StampError>(StampError::Missing),
    {
        match contents {
            Some(bytes) => Ok(ContentHash::of(bytes).same(&self.hash)),
            None => Err(StampError::Missing),
        }
    }

    /// Do the two stamps name the same path and the same hash?
    pub fn same(&self, other: &FileStamp) -> (r: bool)
        ensures
            r == (self@ == other@),
    {
        self.path.same(&other.path) && self.hash.same(&other.hash)
    }

    /// The textual form: `path@hex`.
    pub fn to_string(&self) -> (s: String)
        ensures
            s@ == stamp_text(self@),
    {
        let mut out = self.path.to_chars();
        out.push('@');
        push_str(&mut out, self.hash.to_hex().as_str());
        string_of(&out)
    }

    /// The short form for people: the path and the first eight digits of the hash.
    pub fn summary(&self) -> (s: String)
        ensures
            s@ == path_text(self@.path) + seq!['@'] + hex_text(self@.hash).take(8),
    {
        let mut out = self.path.to_chars();
        out.push('@');
        push_str(&mut out, self.hash.short().as_str());
        string_of(&out)
    }

    /// Reads a stamp from its text.
    pub fn from_str(s: &str) -> (r: Result<FileStamp, ParseError>)
        ensures
            r matches Ok(x) ==> parse_stamp(s@) == Ok::<StampModel, ParseError>(x@),
            r matches Err(e) ==> parse_stamp(s@) == Err::<StampModel, ParseError>(e),
    {
        let chars = chars_of(s);
        FileStamp::from_chars(&chars)
    }

    /// Reads a stamp from the characters of its text.
    pub fn from_chars(chars: &Vec<char>) -> (r: Result<FileStamp, ParseError>)
        ensures
            r matches Ok(x) ==> parse_stamp(chars@) == Ok::<StampModel, ParseError>(x@),
            r matches Err(e) ==> parse_stamp(chars@) == Err::<StampModel, ParseError>(e),
    {
        let i = find(chars, '@');
        if i >= chars.len() {
            return Err(ParseError::NoAtSign);
        }
        let path_chars = slice(chars, 0, i);
        let hash_chars = slice(chars, i + 1, chars.len());
        assert(path_chars@ == chars@.take(i as int));
        assert(hash_chars@ == chars@.skip(i + 1));
        let path = match LocalPath::from_chars(&path_chars) {
            Ok(p) => p,
            Err(e) => {
                return Err(e);
            },
        };
        let hash = match ContentHash::from_str(string_of(&hash_chars).as_str()) {
            Ok(h) => h,
            Err(e) => {
                return Err(e);
            },
        };
        Ok(FileStamp { path, hash })
    }
}

/// What was found on disk: for each file that was looked at and exists, its
/// path and the hash of its bytes now.
#[derive(Debug, PartialEq, Eq)]
pub struct Snapshot {
    pub files: Vec<FileStamp>,
}

/// The hash that the first entry for `path` carries.
pub open spec fn current_hash(files: Seq<StampModel>, path: Seq<Seq<char>>) -> Option<Seq<u8>>
    decreases files.len(),
{
    if files.len() == 0 {
        None
    } else if files[0].path == path {
        Some(files[0].hash)
    } else {
        current_hash(files.drop_first(), path)
    }
}

/// Is the stamp still true of the files found: the file exists and has that hash?
pub open spec fn stamp_holds(files: Seq<StampModel>, stamp: StampModel) -> bool {
    current_hash(files, stamp.path) == Some(stamp.hash)
}

/// Is every stamp still true of the files found?
pub open spec fn all_hold(files: Seq<StampModel>, stamps: Seq<StampModel>) -> bool {
    forall|i: int| 0 <= i < stamps.len() ==> stamp_holds(files, #[trigger] stamps[i])
}

impl View for Snapshot {
    type V = Seq<StampModel>;

    open spec fn view(&self) -> Seq<StampModel> {
        views(self.files@)
    }
}

impl Snapshot {
    /// A snapshot of no file at all.
    pub fn new() -> (s: Snapshot)
        ensures
            s@ == Seq::<StampModel>::empty(),
    {
        let files: Vec<FileStamp> = Vec::new();
        assert(views(files@) =~= Seq::<StampModel>::empty());
        Snapshot { files }
    }

    /// Records what a file holds now. An earlier record for the same path stays
    /// in force.
    pub fn record(&mut self, stamp: FileStamp)
        ensures
            final(self)@ == old(self)@.push(stamp@),
    {
        let ghost before = views(self.files@);
        self.files.push(stamp);
        assert(views(self.files@) =~= before.push(stamp@));
    }

    /// The hash found at `path`, if a file was found there.
    pub fn lookup(&self, path: &LocalPath) -> (r: Option<ContentHash>)
        ensures
            r matches Some(h) ==> current_hash(self@, path@) == Some(h@),
            r is None ==> current_hash(self@, path@) is None,
    {
        let mut i: usize = 0;
        assert(self@.skip(0) =~= self@);
        while i < self.files.len()
            invariant
                i <= self.files.len(),
                current_hash(self@, path@) == current_hash(self@.skip(i as int), path@),
            decreases self.files.len() - i,
        {
            assert(self@.skip(i as int)[0] == self.files@[i as int]@);
            assert(self@.skip(i as int).drop_first() =~= self@.skip(i + 1));
            if self.files[i].path.same(path) {
                return Some(self.files[i].hash);
            }
            i += 1;
        }
        None
    }

    /// Was a file found at `path`?
    pub fn holds_path(&self, path: &LocalPath) -> (r: bool)
        ensures
            r == current_hash(self@, path@).is_some(),
    {
        self.lookup(path).is_some()
    }

    /// Is the stamp still true: a file was found at its path, with its hash?
    pub fn confirms(&self, stamp: &FileStamp) -> (r: bool)
        ensures
            r == stamp_holds(self@, stamp@),
    {
        match self.lookup(&stamp.path) {
            Some(h) => h.same(&stamp.hash),
            None => false,
        }
    }

    /// Is every one of the stamps still true?
    pub fn confirms_all(&self, stamps: &Vec<FileStamp>) -> (r: bool)
        ensures
            r == all_hold(self@, views(stamps@)),
    {
        let mut i: usize = 0;
        while i < stamps.len()
            invariant
                i <= stamps.len(),
                forall|j: int| 0 <= j < i ==> stamp_holds(self@, #[trigger] views(stamps@)[j]),
            decreases stamps.len() - i,
        {
            if !self.confirms(&stamps[i]) {
                assert(views(stamps@)[i as int] == stamps@[i as int]@);
                return false;
            }
            assert(views(stamps@)[i as int] == stamps@[i as int]@);
            i += 1;
        }
        true
    }
}

impl LocalPath {
    /// Was a file found at this path?
    pub fn is_present(&self, files: &Snapshot) -> (r: bool)
        ensures
            r == current_hash(files@, self@).is_some(),
    {
        files.holds_path(self)
    }
}

} // verus!
