use vstd::prelude::*;

use crate::digest::Fingerprint;

verus! {

/// std's `PathBuf`, carried through as an opaque value: nothing here reads a path.
#[verifier::external_type_specification]
#[verifier::external_body]
pub struct ExPathBuf(std::path::PathBuf);

/// One regular file found under a root: the fingerprint of its content and its path.
#[derive(Debug)]
pub struct FileEntry {
    pub fingerprint: Fingerprint,
    pub path: std::path::PathBuf,
}

impl FileEntry {
    pub fn new(fingerprint: Fingerprint, path: std::path::PathBuf) -> (r: FileEntry)
        ensures
            r.fingerprint == fingerprint,
            r.path == path,
    {
        FileEntry { fingerprint, path }
    }
}

/// Some entry of `s` has the digest `d`.
pub open spec fn fingerprint_in(s: Seq<FileEntry>, d: Seq<u8>) -> bool {
    exists|i: int| 0 <= i < s.len() && (#[trigger] s[i]).fingerprint@ == d
}

/// The entries of `s` in order, each kept only when no earlier entry has its digest.
pub open spec fn first_per_fingerprint(s: Seq<FileEntry>) -> Seq<FileEntry>
    decreases s.len(),
{
    if s.len() == 0 {
        Seq::empty()
    } else {
        let kept = first_per_fingerprint(s.drop_last());
        if fingerprint_in(s.drop_last(), s.last().fingerprint@) {
            kept
        } else {
            kept.push(s.last())
        }
    }
}

/// The entries of `right` in order whose digest no entry of `left` has.
pub open spec fn absent_from(left: Seq<FileEntry>, right: Seq<FileEntry>) -> Seq<FileEntry> {
    right.filter(|e: FileEntry| !fingerprint_in(left, e.fingerprint@))
}

/// The files that were hashed, in order: each outcome that holds an entry gives it.
pub open spec fn hashed(outcomes: Seq<Option<FileEntry>>) -> Seq<FileEntry> {
    outcomes.filter_map(|o: Option<FileEntry>| o)
}

} // verus!
