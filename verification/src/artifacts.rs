//! The artifact store: files kept under the hexadecimal form of their hash.

use crate::error::ParseError;
use crate::filestamp::{FileStamp, StampModel};
use crate::hash::{hex_text, parse_hex, ContentHash};
use crate::local_path::abs_text;
use crate::text::{chars_of, push_str, string_of, views};
use vstd::prelude::*;
use vstd::string::*;

verus! {

/// Where the store keeps the bytes with the given hash: a file in the store's
/// directory, named by the hexadecimal form of the hash.
pub open spec fn store_path_text(dir: Seq<char>, hash: Seq<u8>) -> Seq<char> {
    dir + seq!['/'] + hex_text(hash)
}

/// One file to copy, byte for byte.
#[derive(Debug, PartialEq, Eq)]
pub struct FileCopy {
    pub from: String,
    pub to: String,
}

/// A file to copy, as two texts.
pub struct CopyModel {
    pub from: Seq<char>,
    pub to: Seq<char>,
}

impl View for FileCopy {
    type V = CopyModel;

    open spec fn view(&self) -> CopyModel {
        CopyModel { from: self.from@, to: self.to@ }
    }
}

/// The copy that takes the file of a stamp into the store.
pub open spec fn copy_in(root: Seq<char>, dir: Seq<char>, file: StampModel) -> CopyModel {
    CopyModel { from: abs_text(root, file.path), to: store_path_text(dir, file.hash) }
}

/// The copy that brings the file of a stamp back from the store.
pub open spec fn copy_out(root: Seq<char>, dir: Seq<char>, file: StampModel) -> CopyModel {
    CopyModel { from: store_path_text(dir, file.hash), to: abs_text(root, file.path) }
}

/// What a store has to do to take a file in: nothing if it has the hash.
pub open spec fn insert_plan(
    store: Set<Seq<u8>>,
    root: Seq<char>,
    dir: Seq<char>,
    file: StampModel,
) -> Option<CopyModel> {
    if store.contains(file.hash) {
        None
    } else {
        Some(copy_in(root, dir, file))
    }
}

/// After a file was taken in, the store has its hash, and bringing it back
/// reads the very file that taking it in wrote: the one named by the hash.
/// Taking it in once more does nothing.
pub proof fn lemma_insert_then_restore(
    store: Set<Seq<u8>>,
    root: Seq<char>,
    dir: Seq<char>,
    file: StampModel,
)
    ensures
        store.insert(file.hash).contains(file.hash),
        copy_out(root, dir, file).from == copy_in(root, dir, file).to,
        copy_out(root, dir, file).from == store_path_text(dir, file.hash),
        copy_out(root, dir, file).to == copy_in(root, dir, file).from,
        insert_plan(store.insert(file.hash), root, dir, file) is None,
{
}

/// Are all the names hashes in hexadecimal form?
pub open spec fn all_hashes(names: Seq<Seq<char>>) -> bool {
    forall|i: int| 0 <= i < names.len() ==> parse_hex(#[trigger] names[i]) is Some
}

/// The hashes that the names stand for.
pub open spec fn named_hashes(names: Seq<Seq<char>>) -> Set<Seq<u8>> {
    Set::new(|h: Seq<u8>| exists|i: int| 0 <= i < names.len() && parse_hex(#[trigger] names[i]) == Some(h))
}

/// The hashes of the artifacts that were found in the store.
#[derive(Debug)]
pub struct Artifacts {
    hashes: Vec<ContentHash>,
}

impl View for Artifacts {
    type V = Set<Seq<u8>>;

    closed spec fn view(&self) -> Set<Seq<u8>> {
        Set::new(|h: Seq<u8>| views(self.hashes@).contains(h))
    }
}

impl Artifacts {
    /// The store with the artifacts whose file names are given. A name that
    /// is not a hash is refused.
    pub fn new(names: &Vec<String>) -> (r: Result<Artifacts, ParseError>)
        ensures
            all_hashes(views(names@)) ==> (r matches Ok(store) && store@ == named_hashes(
                views(names@),
            )),
            !all_hashes(views(names@)) ==> r == Err::<Artifacts, ParseError>(ParseError::BadHash),
    {
        let mut hashes: Vec<ContentHash> = Vec::new();
        let ghost all = views(names@);
        let mut i: usize = 0;
        while i < names.len()
            invariant
                i <= names.len(),
                all == views(names@),
                hashes@.len() == i,
                forall|k: int| 0 <= k < i ==> parse_hex(#[trigger] all[k]) == Some(hashes@[k]@),
            decreases names.len() - i,
        {
            assert(all[i as int] == names@[i as int]@);
            match ContentHash::from_hex(names[i].as_str()) {
                Ok(h) => {
                    hashes.push(h);
                },
                Err(_) => {
                    return Err(ParseError::BadHash);
                },
            }
            i += 1;
        }
        let store = Artifacts { hashes };
        proof {
            assert forall|h: Seq<u8>| store@.contains(h) <==> named_hashes(all).contains(h) by {
                if store@.contains(h) {
                    let k = choose|k: int|
                        0 <= k < views(store.hashes@).len() && views(store.hashes@)[k] == h;
                    assert(parse_hex(all[k]) == Some(h));
                }
                if named_hashes(all).contains(h) {
                    let k = choose|k: int| 0 <= k < all.len() && parse_hex(#[trigger] all[k]) == Some(h);
                    assert(views(store.hashes@)[k] == h);
                }
            }
            assert(store@ =~= named_hashes(all));
        }
        Ok(store)
    }

    /// Where the store in `dir` keeps the bytes with the given hash.
    pub fn store_path(dir: &str, hash: &ContentHash) -> (s: String)
        ensures
            s@ == store_path_text(dir@, hash@),
    {
        let mut out = chars_of(dir);
        out.push('/');
        push_str(&mut out, hash.to_hex().as_str());
        string_of(&out)
    }

    /// Does the store have an artifact with this hash?
    pub fn contains(&self, hash: &ContentHash) -> (r: bool)
        ensures
            r == self@.contains(hash@),
    {
        let mut i: usize = 0;
        while i < self.hashes.len()
            invariant
                i <= self.hashes.len(),
                forall|k: int| 0 <= k < i ==> views(self.hashes@)[k] != hash@,
            decreases self.hashes.len() - i,
        {
            if self.hashes[i].same(hash) {
                assert(views(self.hashes@)[i as int] == hash@);
                return true;
            }
            i += 1;
        }
        false
    }

    /// Takes the file of a stamp into the store. The copy returned is what
    /// remains to be done: nothing if the store has the hash already.
    pub fn insert(&mut self, file: &FileStamp, root: &str, dir: &str) -> (r: Option<FileCopy>)
        ensures
            final(self)@ == old(self)@.insert(file@.hash),
            match r {
                Some(c) => Some(c@) == insert_plan(old(self)@, root@, dir@, file@),
                None => insert_plan(old(self)@, root@, dir@, file@) is None,
            },
    {
        if self.contains(&file.hash) {
            assert(self@ =~= self@.insert(file@.hash));
            None
        } else {
            let ghost before = views(self.hashes@);
            let ghost old_store = self@;
            self.hashes.push(file.hash);
            proof {
                assert(views(self.hashes@) =~= before.push(file@.hash));
                assert forall|h: Seq<u8>| self@.contains(h) <==> old_store.insert(
                    file@.hash,
                ).contains(h) by {
                    if self@.contains(h) {
                        let k = choose|k: int|
                            0 <= k < views(self.hashes@).len() && views(self.hashes@)[k] == h;
                        if k < before.len() {
                            assert(before[k] == h);
                        }
                    }
                    if old_store.contains(h) {
                        let k = choose|k: int| 0 <= k < before.len() && before[k] == h;
                        assert(views(self.hashes@)[k] == h);
                    }
                    if h == file@.hash {
                        assert(views(self.hashes@)[before.len() as int] == h);
                    }
                }
                assert(self@ =~= old_store.insert(file@.hash));
            }
            Some(FileCopy { from: file.path.to_abs(root), to: Artifacts::store_path(dir, &file.hash) })
        }
    }

    /// The copy that brings the file of a stamp back from the store. The
    /// store must have the hash.
    pub fn restore(&self, file: &FileStamp, root: &str, dir: &str) -> (c: FileCopy)
        requires
            self@.contains(file@.hash),
        ensures
            c@ == copy_out(root@, dir@, file@),
    {
        FileCopy { from: Artifacts::store_path(dir, &file.hash), to: file.path.to_abs(root) }
    }
}

} // verus!
