use vstd::prelude::*;

use crate::digest::{ContentHasher, absorbed, sha256_of};
use crate::entry::{FileEntry, absent_from, fingerprint_in, first_per_fingerprint, hashed};

verus! {

/// No two entries of `s` share a digest.
pub open spec fn distinct_fingerprints(s: Seq<FileEntry>) -> bool {
    forall|i: int, j: int|
        0 <= i < j < s.len() ==> (#[trigger] s[i]).fingerprint@ != (#[trigger] s[j]).fingerprint@
}

/// Comparing a collection with itself reports nothing: every entry finds its own digest.
pub proof fn lemma_diff_with_itself_is_empty(x: Seq<FileEntry>)
    ensures
        absent_from(x, x) == Seq::<FileEntry>::empty(),
{
    broadcast use vstd::seq_lib::group_filter_ensures;

    let pred = |e: FileEntry| !fingerprint_in(x, e.fingerprint@);
    let r = x.filter(pred);
    if r.len() > 0 {
        x.lemma_filter_pred(pred, 0);
        assert(r.contains(r[0]));
        x.lemma_filter_contains_rev(pred, r[0]);
        let k = choose|k: int| 0 <= k < x.len() && x[k] == r[0];
        assert(fingerprint_in(x, x[k].fingerprint@));
    }
    assert(r =~= Seq::<FileEntry>::empty());
}

/// Collapsing duplicates keeps exactly the digests that were there.
pub proof fn lemma_dedup_keeps_fingerprints(s: Seq<FileEntry>, d: Seq<u8>)
    ensures
        fingerprint_in(first_per_fingerprint(s), d) == fingerprint_in(s, d),
    decreases s.len(),
{
    if s.len() > 0 {
        let prev = s.drop_last();
        let kept = first_per_fingerprint(prev);
        lemma_dedup_keeps_fingerprints(prev, d);
        lemma_dedup_keeps_fingerprints(prev, s.last().fingerprint@);
        if fingerprint_in(s, d) {
            let k = choose|k: int| 0 <= k < s.len() && (#[trigger] s[k]).fingerprint@ == d;
            if k < prev.len() {
                assert(prev[k] == s[k]);
            }
        }
        if fingerprint_in(prev, d) {
            let k = choose|k: int| 0 <= k < prev.len() && (#[trigger] prev[k]).fingerprint@ == d;
            assert(s[k] == prev[k]);
        }
        let r = first_per_fingerprint(s);
        if !fingerprint_in(prev, s.last().fingerprint@) {
            assert(r == kept.push(s.last()));
            if fingerprint_in(kept, d) {
                let k = choose|k: int| 0 <= k < kept.len() && (#[trigger] kept[k]).fingerprint@ == d;
                assert(r[k] == kept[k]);
            }
            if fingerprint_in(r, d) {
                let k = choose|k: int| 0 <= k < r.len() && (#[trigger] r[k]).fingerprint@ == d;
                if k < kept.len() {
                    assert(r[k] == kept[k]);
                }
            }
            assert(r[kept.len() as int] == s.last());
        }
    }
}

/// Collapsing duplicates leaves at most one entry per digest.
pub proof fn lemma_dedup_distinct(s: Seq<FileEntry>)
    ensures
        distinct_fingerprints(first_per_fingerprint(s)),
    decreases s.len(),
{
    if s.len() > 0 {
        let prev = s.drop_last();
        let kept = first_per_fingerprint(prev);
        lemma_dedup_distinct(prev);
        if !fingerprint_in(prev, s.last().fingerprint@) {
            lemma_dedup_keeps_fingerprints(prev, s.last().fingerprint@);
            let r = kept.push(s.last());
            assert forall|i: int, j: int| 0 <= i < j < r.len() implies (#[trigger] r[i]).fingerprint@
                != (#[trigger] r[j]).fingerprint@ by {
                assert(r[i] == kept[i]);
                if j < kept.len() {
                    assert(r[j] == kept[j]);
                } else {
                    assert(!fingerprint_in(kept, s.last().fingerprint@));
                }
            }
        }
    }
}

/// A collection with no shared digests is left as it is by collapsing duplicates.
pub proof fn lemma_dedup_of_distinct(s: Seq<FileEntry>)
    requires
        distinct_fingerprints(s),
    ensures
        first_per_fingerprint(s) == s,
    decreases s.len(),
{
    if s.len() > 0 {
        let prev = s.drop_last();
        assert(distinct_fingerprints(prev)) by {
            assert forall|i: int, j: int| 0 <= i < j < prev.len() implies (#[trigger] prev[i]).fingerprint@
                != (#[trigger] prev[j]).fingerprint@ by {
                assert(prev[i] == s[i] && prev[j] == s[j]);
            }
        }
        lemma_dedup_of_distinct(prev);
        if fingerprint_in(prev, s.last().fingerprint@) {
            let k = choose|k: int|
                0 <= k < prev.len() && (#[trigger] prev[k]).fingerprint@ == s.last().fingerprint@;
            assert(s[k] == prev[k]);
        }
        assert(prev.push(s.last()) =~= s);
    }
}

/// Collapsing duplicates twice is the same as once, and the result holds exactly one entry
/// per digest present in `x`.
pub proof fn lemma_dedup_idempotent(x: Seq<FileEntry>)
    ensures
        first_per_fingerprint(first_per_fingerprint(x)) == first_per_fingerprint(x),
        distinct_fingerprints(first_per_fingerprint(x)),
        forall|d: Seq<u8>|
            fingerprint_in(first_per_fingerprint(x), d) == #[trigger] fingerprint_in(x, d),
{
    assert forall|d: Seq<u8>|
        fingerprint_in(first_per_fingerprint(x), d) == #[trigger] fingerprint_in(x, d) by {
        lemma_dedup_keeps_fingerprints(x, d);
    }
    lemma_dedup_distinct(x);
    lemma_dedup_of_distinct(first_per_fingerprint(x));
}

/// An entry of the compared `right` collection (collapsed first when `ignore_duplicates` is
/// set) is reported exactly when no entry of `left` has its digest.
pub proof fn lemma_diff_exclusion(left: Seq<FileEntry>, right: Seq<FileEntry>, ignore_duplicates: bool)
    ensures
        ({
            let r = if ignore_duplicates {
                first_per_fingerprint(right)
            } else {
                right
            };
            forall|i: int|
                0 <= i < r.len() ==> (absent_from(left, r).contains(#[trigger] r[i])
                    <==> !fingerprint_in(left, r[i].fingerprint@))
        }),
{
    let r = if ignore_duplicates {
        first_per_fingerprint(right)
    } else {
        right
    };
    let pred = |e: FileEntry| !fingerprint_in(left, e.fingerprint@);
    assert forall|i: int| 0 <= i < r.len() implies (absent_from(left, r).contains(#[trigger] r[i])
        <==> !fingerprint_in(left, r[i].fingerprint@)) by {
        if pred(r[i]) {
            r.lemma_filter_contains(pred, i);
        }
        if absent_from(left, r).contains(r[i]) {
            let k = choose|k: int| 0 <= k < r.filter(pred).len() && r.filter(pred)[k] == r[i];
            r.lemma_filter_pred(pred, k);
        }
    }
}

/// Two hashers that were fed the same content give the same fingerprint, however the
/// content was split into chunks.
pub proof fn lemma_fingerprint_determined_by_content(a: ContentHasher, b: ContentHasher)
    requires
        absorbed(a) == absorbed(b),
    ensures
        sha256_of(absorbed(a)) == sha256_of(absorbed(b)),
{
}

/// The files that were hashed give one entry each, and nothing else gives one.
pub proof fn lemma_one_entry_per_hashed_file(outcomes: Seq<Option<FileEntry>>)
    ensures
        hashed(outcomes).len() == outcomes.filter(|o: Option<FileEntry>| o is Some).len(),
        forall|i: int|
            0 <= i < outcomes.len() && (#[trigger] outcomes[i]) is Some ==> hashed(
                outcomes,
            ).contains(outcomes[i]->0),
    decreases outcomes.len(),
{
    reveal(Seq::filter);
    let is_some = |o: Option<FileEntry>| o is Some;
    if outcomes.len() > 0 {
        let prev = outcomes.drop_last();
        lemma_one_entry_per_hashed_file(prev);
        let h = hashed(outcomes);
        assert forall|i: int|
            0 <= i < outcomes.len() && (#[trigger] outcomes[i]) is Some implies h.contains(
            outcomes[i]->0,
        ) by {
            if i < prev.len() {
                assert(prev[i] == outcomes[i]);
                let k = choose|k: int| 0 <= k < hashed(prev).len() && hashed(prev)[k] == outcomes[i]->0;
                assert(h[k] == hashed(prev)[k]);
            } else {
                assert(h[h.len() - 1] == outcomes[i]->0);
            }
        }
    }
}

} // verus!
