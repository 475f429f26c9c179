//! A direct-mapped cache for deduplicating repeatedly produced values.

use vstd::prelude::*;

verus! {

/// The 64-bit hash that the fnv crate's hasher computes over the
/// little-endian bytes of a value: a function of the value alone.
pub uninterp spec fn fnv_hash_of(value: u64) -> u64;

/// Relies on fnv's FnvHasher: hashing the little-endian bytes of the value
/// yields a digest that depends on those bytes alone, on every machine.
#[verifier::external_body]
fn fnv_hash_u64(value: u64) -> (r: u64)
    ensures
        r == fnv_hash_of(value),
{
    let mut hasher = fnv::FnvHasher::default();
    std::hash::Hasher::write(&mut hasher, &value.to_le_bytes());
    std::hash::Hasher::finish(&hasher)
}

/// A fixed-capacity, direct-mapped cache of values: each value hashes to
/// one bucket, and inserting reports whether the bucket did not already
/// hold that same value. With capacity zero every insertion reports a
/// fresh value.
#[derive(Clone, PartialEq, Eq, Debug)]
pub struct DirectMappedCache {
    cache: Vec<Option<u64>>,
}

impl DirectMappedCache {
    pub closed spec fn buckets(self) -> Seq<Option<u64>> {
        self.cache@
    }

    /// A cache with `capacity` empty buckets.
    pub fn with_capacity(capacity: usize) -> (r: DirectMappedCache)
        ensures
            r.buckets().len() == capacity,
            forall|k: int| 0 <= k < capacity ==> r.buckets()[k] is None,
    {
        let mut cache: Vec<Option<u64>> = Vec::new();
        let mut i: usize = 0;
        while i < capacity
            invariant
                i <= capacity,
                cache@.len() == i,
                forall|k: int| 0 <= k < i ==> cache@[k] is None,
            decreases capacity - i,
        {
            cache.push(None);
            i = i + 1;
        }
        DirectMappedCache { cache }
    }

    pub fn capacity(&self) -> (r: usize)
        ensures
            r == self.buckets().len(),
    {
        self.cache.len()
    }

    /// Insert `value`; report whether its bucket did not already hold it.
    pub fn insert(&mut self, value: u64) -> (r: bool)
        ensures
            old(self).buckets().len() == 0 ==> r && final(self).buckets() == old(self).buckets(),
            old(self).buckets().len() > 0 ==> {
                let index = (fnv_hash_of(value) as int) % (old(self).buckets().len() as int);
                &&& final(self).buckets() == old(self).buckets().update(index, Some(value))
                &&& r == (old(self).buckets()[index] != Some(value))
            },
    {
        if self.cache.len() == 0 {
            return true;
        }
        let hash = fnv_hash_u64(value);
        let index = (hash % (self.cache.len() as u64)) as usize;
        let fresh = match &self.cache[index] {
            Some(old_value) => *old_value != value,
            None => true,
        };
        self.cache[index] = Some(value);
        fresh
    }
}

} // verus!
