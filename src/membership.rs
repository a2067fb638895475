use std::collections::HashMap;

use vstd::prelude::*;

use crate::digest::Fingerprint;
use crate::entry::{FileEntry, fingerprint_in};

verus! {

broadcast use vstd::std_specs::hash::group_hash_axioms;

/// The bucket of a digest: its first eight bytes, big-endian.
pub open spec fn bucket_key(d: Seq<u8>) -> u64 {
    ((d[0] as u64) << 56u64) | ((d[1] as u64) << 48u64) | ((d[2] as u64) << 40u64) | ((
    d[3] as u64) << 32u64) | ((d[4] as u64) << 24u64) | ((d[5] as u64) << 16u64) | ((
    d[6] as u64) << 8u64) | (d[7] as u64)
}

fn key_of(fp: &Fingerprint) -> (r: u64)
    ensures
        r == bucket_key(fp@),
{
    let b = &fp.bytes;
    ((b[0] as u64) << 56u64) | ((b[1] as u64) << 48u64) | ((b[2] as u64) << 40u64) | ((
    b[3] as u64) << 32u64) | ((b[4] as u64) << 24u64) | ((b[5] as u64) << 16u64) | ((
    b[6] as u64) << 8u64) | (b[7] as u64)
}

/// `b` holds a fingerprint with digest `d` in the bucket of `d`.
pub open spec fn in_bucket(b: Map<u64, Vec<Fingerprint>>, d: Seq<u8>) -> bool {
    b.contains_key(bucket_key(d)) && exists|j: int|
        0 <= j < b[bucket_key(d)]@.len() && (#[trigger] b[bucket_key(d)]@[j])@ == d
}

/// A set of digests with constant-time expected membership queries.
pub struct FingerprintSet {
    buckets: HashMap<u64, Vec<Fingerprint>>,
    members: Ghost<Set<Seq<u8>>>,
}

impl View for FingerprintSet {
    type V = Set<Seq<u8>>;

    closed spec fn view(&self) -> Set<Seq<u8>> {
        self.members@
    }
}

impl FingerprintSet {
    /// Every fingerprint held is a member, and every member is held in its bucket.
    pub closed spec fn wf(&self) -> bool {
        &&& forall|k: u64, j: int|
            self.buckets@.contains_key(k) && 0 <= j < self.buckets@[k]@.len()
                ==> self.members@.contains((#[trigger] self.buckets@[k]@[j])@)
        &&& forall|d: Seq<u8>| #[trigger] self.members@.contains(d) ==> in_bucket(self.buckets@, d)
    }

    /// The empty set.
    pub fn new() -> (r: FingerprintSet)
        ensures
            r.wf(),
            r@ == Set::<Seq<u8>>::empty(),
    {
        FingerprintSet { buckets: HashMap::new(), members: Ghost(Set::empty()) }
    }

    /// Whether a fingerprint with the digest of `fp` is in the set.
    pub fn contains(&self, fp: &Fingerprint) -> (r: bool)
        requires
            self.wf(),
        ensures
            r == self@.contains(fp@),
    {
        let key = key_of(fp);
        match self.buckets.get(&key) {
            None => false,
            Some(bucket) => {
                let mut j: usize = 0;
                while j < bucket.len()
                    invariant
                        self.wf(),
                        self.buckets@.contains_key(key),
                        key == bucket_key(fp@),
                        *bucket == self.buckets@[key],
                        j <= bucket@.len(),
                        forall|i: int| 0 <= i < j ==> (#[trigger] bucket@[i])@ != fp@,
                    decreases bucket@.len() - j,
                {
                    if bucket[j].same_as(fp) {
                        assert(self.buckets@[key]@[j as int]@ == fp@);
                        return true;
                    }
                    j = j + 1;
                }
                false
            },
        }
    }

    /// Add the digest of `fp`.
    pub fn insert(&mut self, fp: Fingerprint)
        requires
            old(self).wf(),
        ensures
            final(self).wf(),
            final(self)@ == old(self)@.insert(fp@),
    {
        if self.contains(&fp) {
            assert(self@.insert(fp@) =~= self@);
            return ;
        }
        let key = key_of(&fp);
        let ghost old_buckets = self.buckets@;
        let mut bucket = match self.buckets.remove(&key) {
            Some(v) => v,
            None => Vec::new(),
        };
        let ghost old_bucket = bucket@;
        assert(old_buckets.contains_key(key) ==> old_bucket == old_buckets[key]@);
        bucket.push(fp);
        self.buckets.insert(key, bucket);
        self.members = Ghost(self.members@.insert(fp@));
        assert(self.buckets@ == old_buckets.insert(key, self.buckets@[key]));
        assert(self.buckets@[key]@ == old_bucket.push(fp));
        assert forall|k: u64, j: int|
            self.buckets@.contains_key(k) && 0 <= j < self.buckets@[k]@.len() implies self.members@.contains(
            (#[trigger] self.buckets@[k]@[j])@) by {
            if k != key {
                assert(old_buckets.contains_key(k));
            } else if j < old_bucket.len() {
                assert(self.buckets@[k]@[j] == old_buckets[k]@[j]);
            }
        }
        assert forall|d: Seq<u8>| #[trigger] self.members@.contains(d) implies in_bucket(
            self.buckets@,
            d,
        ) by {
            if d == fp@ {
                assert(self.buckets@[key]@[old_bucket.len() as int] == fp);
            } else {
                assert(in_bucket(old_buckets, d));
                let dk = bucket_key(d);
                let j = choose|j: int|
                    0 <= j < old_buckets[dk]@.len() && (#[trigger] old_buckets[dk]@[j])@ == d;
                assert(self.buckets@[dk]@[j] == old_buckets[dk]@[j]);
            }
        }
    }

    /// The digests of all entries of `entries`.
    pub fn from_entries(entries: &Vec<FileEntry>) -> (r: FingerprintSet)
        ensures
            r.wf(),
            forall|d: Seq<u8>| r@.contains(d) <==> fingerprint_in(entries@, d),
    {
        let mut set = FingerprintSet::new();
        let mut i: usize = 0;
        while i < entries.len()
            invariant
                i <= entries@.len(),
                set.wf(),
                forall|d: Seq<u8>|
                    set@.contains(d) <==> fingerprint_in(entries@.subrange(0, i as int), d),
            decreases entries@.len() - i,
        {
            set.insert(entries[i].fingerprint);
            proof {
                let next = entries@.subrange(0, i + 1);
                let prev = entries@.subrange(0, i as int);
                assert forall|d: Seq<u8>| set@.contains(d) <==> fingerprint_in(next, d) by {
                    if fingerprint_in(prev, d) {
                        let k = choose|k: int| 0 <= k < prev.len() && (#[trigger] prev[k]).fingerprint@ == d;
                        assert(next[k] == prev[k]);
                    }
                    if fingerprint_in(next, d) {
                        let k = choose|k: int| 0 <= k < next.len() && (#[trigger] next[k]).fingerprint@ == d;
                        if k < i {
                            assert(next[k] == prev[k]);
                        }
                    }
                    assert(next[i as int] == entries@[i as int]);
                }
            }
            i = i + 1;
        }
        assert(entries@.subrange(0, entries@.len() as int) =~= entries@);
        set
    }
}

} // verus!
