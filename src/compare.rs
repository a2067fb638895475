use vstd::prelude::*;

use crate::entry::{FileEntry, absent_from, fingerprint_in, first_per_fingerprint, hashed};
use crate::membership::FingerprintSet;

verus! {

/// Keep only the first entry of each digest, in the given order.
pub fn deduplicate_by_hash(entries: Vec<FileEntry>) -> (r: Vec<FileEntry>)
    ensures
        r@ == first_per_fingerprint(entries@),
{
    let ghost all = entries@;
    let mut seen = FingerprintSet::new();
    let mut deduped: Vec<FileEntry> = Vec::new();
    for e in it: entries.into_iter()
        invariant
            it.seq() == all,
            seen.wf(),
            forall|d: Seq<u8>|
                seen@.contains(d) <==> fingerprint_in(all.subrange(0, it.index() as int), d),
            deduped@ == first_per_fingerprint(all.subrange(0, it.index() as int)),
    {
        let ghost i = it.index() as int;
        let ghost prev = all.subrange(0, i);
        let ghost next = all.subrange(0, i + 1);
        proof {
            assert(next.drop_last() =~= prev);
            assert(next.last() == e);
        }
        if !seen.contains(&e.fingerprint) {
            seen.insert(e.fingerprint);
            deduped.push(e);
        }
        proof {
            assert forall|d: Seq<u8>| seen@.contains(d) <==> fingerprint_in(next, d) by {
                if fingerprint_in(prev, d) {
                    let k = choose|k: int| 0 <= k < prev.len() && (#[trigger] prev[k]).fingerprint@ == d;
                    assert(next[k] == prev[k]);
                }
                if fingerprint_in(next, d) {
                    let k = choose|k: int| 0 <= k < next.len() && (#[trigger] next[k]).fingerprint@ == d;
                    if k < i {
                        assert(next[k] == prev[k]);
                    }
                }
            }
        }
    }
    assert(all.subrange(0, all.len() as int) =~= all);
    deduped
}


/// The entries of `right`, in order, whose digest no entry of `left` has.
pub fn diff(left: &Vec<FileEntry>, right: Vec<FileEntry>) -> (r: Vec<FileEntry>)
    ensures
        r@ == absent_from(left@, right@),
{
    let ghost all = right@;
    let left_hashes = FingerprintSet::from_entries(left);
    let mut missing: Vec<FileEntry> = Vec::new();
    for e in it: right.into_iter()
        invariant
            it.seq() == all,
            left_hashes.wf(),
            forall|d: Seq<u8>| left_hashes@.contains(d) <==> fingerprint_in(left@, d),
            missing@ == absent_from(left@, all.subrange(0, it.index() as int)),
    {
        let ghost i = it.index() as int;
        proof {
            let next = all.subrange(0, i + 1);
            assert(next.drop_last() =~= all.subrange(0, i));
            assert(next.last() == e);
            reveal(Seq::filter);
        }
        if !left_hashes.contains(&e.fingerprint) {
            missing.push(e);
        }
    }
    assert(all.subrange(0, all.len() as int) =~= all);
    missing
}

/// The entries of `right` whose content `left` lacks, after keeping only the first entry of
/// each digest of `right` when `ignore_duplicates` is set.
pub fn compare(left: &Vec<FileEntry>, right: Vec<FileEntry>, ignore_duplicates: bool) -> (r: Vec<
    FileEntry,
>)
    ensures
        ignore_duplicates ==> r@ == absent_from(left@, first_per_fingerprint(right@)),
        !ignore_duplicates ==> r@ == absent_from(left@, right@),
{
    if ignore_duplicates {
        diff(left, deduplicate_by_hash(right))
    } else {
        diff(left, right)
    }
}

/// The entries of the files that were hashed, in order; outcomes without an entry (a file
/// that could not be read) are dropped.
pub fn collect_hashed(outcomes: Vec<Option<FileEntry>>) -> (r: Vec<FileEntry>)
    ensures
        r@ == hashed(outcomes@),
{
    let ghost all = outcomes@;
    let mut entries: Vec<FileEntry> = Vec::new();
    for o in it: outcomes.into_iter()
        invariant
            it.seq() == all,
            entries@ == hashed(all.subrange(0, it.index() as int)),
    {
        let ghost i = it.index() as int;
        proof {
            let next = all.subrange(0, i + 1);
            assert(next.drop_last() =~= all.subrange(0, i));
            assert(next.last() == o);
        }
        match o {
            Some(e) => {
                entries.push(e);
            },
            None => {},
        }
        proof {
            let next = all.subrange(0, i + 1);
            assert(entries@ =~= hashed(next));
        }
    }
    assert(all.subrange(0, all.len() as int) =~= all);
    entries
}

} // verus!
