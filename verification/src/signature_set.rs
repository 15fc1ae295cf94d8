//! A set of signatures, kept in buckets by a hash of their bytes.

use std::collections::HashMap;
use vstd::prelude::*;
use crate::signature::{copy_bytes, same_bytes};

verus! {

/// The hash of the first `k` bytes of a byte string.
pub closed spec fn hash_below(bytes: Seq<u8>, k: int) -> u64
    decreases k,
{
    if k <= 0 {
        0xcbf2_9ce4_8422_2325u64
    } else {
        (hash_below(bytes, k - 1) ^ (bytes[k - 1] as u64)).wrapping_mul(0x0000_0100_0000_01b3u64)
    }
}

/// The hash of a byte string, by which its bucket is found.
pub closed spec fn hash_of(bytes: Seq<u8>) -> u64 {
    hash_below(bytes, bytes.len() as int)
}

/// One of the byte strings of the list is `bytes`.
pub open spec fn lists(list: Seq<Vec<u8>>, bytes: Seq<u8>) -> bool {
    exists|j: int| 0 <= j < list.len() && (#[trigger] list[j])@ == bytes
}

/// Computes `hash_of`.
fn hash_bytes(bytes: &Vec<u8>) -> (h: u64)
    ensures
        h == hash_of(bytes@),
{
    let mut h: u64 = 0xcbf2_9ce4_8422_2325u64;
    let mut k: usize = 0;
    while k < bytes.len()
        invariant
            k <= bytes@.len(),
            h == hash_below(bytes@, k as int),
        decreases bytes@.len() - k,
    {
        h = (h ^ (bytes[k] as u64)).wrapping_mul(0x0000_0100_0000_01b3u64);
        k = k + 1;
    }
    h
}

/// Whether one of the byte strings of the list is `bytes`.
fn list_holds(list: &Vec<Vec<u8>>, bytes: &Vec<u8>) -> (r: bool)
    ensures
        r == lists(list@, bytes@),
{
    let mut k: usize = 0;
    while k < list.len()
        invariant
            k <= list@.len(),
            forall|j: int| 0 <= j < k ==> (#[trigger] list@[j])@ != bytes@,
        decreases list@.len() - k,
    {
        if same_bytes(&list[k], bytes) {
            return true;
        }
        k = k + 1;
    }
    false
}

/// A set of signatures.
#[derive(Debug)]
pub struct SignatureSet {
    buckets: HashMap<u64, Vec<Vec<u8>>>,
}

impl View for SignatureSet {
    type V = Set<Seq<u8>>;

    /// The signatures that are found in the bucket of their hash.
    closed spec fn view(&self) -> Set<Seq<u8>> {
        Set::new(
            |bytes: Seq<u8>|
                self.buckets@.contains_key(hash_of(bytes)) && lists(
                    self.buckets@[hash_of(bytes)]@,
                    bytes,
                ),
        )
    }
}

impl SignatureSet {
    /// The empty set.
    pub fn new() -> (s: Self)
        ensures
            s@ == Set::<Seq<u8>>::empty(),
    {
        let s = SignatureSet { buckets: HashMap::new() };
        assert(s@ =~= Set::<Seq<u8>>::empty());
        s
    }

    /// Whether the signature is in the set.
    pub fn contains(&self, signature: &Vec<u8>) -> (r: bool)
        ensures
            r == self@.contains(signature@),
    {
        let h = hash_bytes(signature);
        match self.buckets.get(&h) {
            Some(bucket) => list_holds(bucket, signature),
            None => false,
        }
    }

    /// Puts a copy of the signature into the set, and says whether it was
    /// new to the set.
    pub fn insert(&mut self, signature: &Vec<u8>) -> (r: bool)
        ensures
            final(self)@ == old(self)@.insert(signature@),
            r == !old(self)@.contains(signature@),
    {
        if self.contains(signature) {
            assert(self@ =~= self@.insert(signature@));
            return false;
        }
        let h = hash_bytes(signature);
        let ghost m0 = self.buckets@;
        let mut bucket: Vec<Vec<u8>> = match self.buckets.remove(&h) {
            Some(found) => found,
            None => Vec::new(),
        };
        let ghost before = bucket@;
        assert(self.buckets@ == m0.remove(h));
        assert(m0.contains_key(h) ==> before == m0[h]@);
        assert(!m0.contains_key(h) ==> before == Seq::<Vec<u8>>::empty());
        bucket.push(copy_bytes(signature));
        proof {
            assert forall|bytes: Seq<u8>| lists(bucket@, bytes) == (lists(before, bytes) || bytes
                == signature@) by {
                if lists(before, bytes) {
                    let j = choose|j: int| 0 <= j < before.len() && (#[trigger] before[j])@ == bytes;
                    assert(bucket@[j]@ == bytes);
                }
                if bytes == signature@ {
                    assert(bucket@[before.len() as int]@ == bytes);
                }
                if lists(bucket@, bytes) {
                    let j = choose|j: int| 0 <= j < bucket@.len() && (#[trigger] bucket@[j])@ == bytes;
                    if j < before.len() {
                        assert(before[j]@ == bytes);
                    }
                }
            }
        }
        self.buckets.insert(h, bucket);
        proof {
            assert(self.buckets@ == m0.remove(h).insert(h, bucket));
            assert forall|bytes: Seq<u8>| self@.contains(bytes) == old(self)@.insert(
                signature@,
            ).contains(bytes) by {
                if hash_of(bytes) == h {
                    assert(self.buckets@[h]@ == bucket@);
                    if !m0.contains_key(h) {
                        assert(!lists(before, bytes));
                    }
                } else {
                    assert(self.buckets@.contains_key(hash_of(bytes)) == m0.contains_key(
                        hash_of(bytes),
                    ));
                }
            }
            assert(self@ =~= old(self)@.insert(signature@));
        }
        true
    }
}

} // verus!
