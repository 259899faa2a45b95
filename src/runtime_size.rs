//! A filter whose byte size and number of hash rounds are chosen at run time,
//! then fixed for its lifetime.
use crate::bits::{bit_set, count_ones};
use crate::common::{as_nats, hash_indices_of, next_pow2, optimal_k_for, BloomParams};
use crate::filter::{contains_item, contains_spec, indices_in, insert_spec, set_indices};
use vstd::prelude::*;

verus! {

/// A Bloom filter whose size is picked when it is made.
#[derive(PartialEq, Eq, Debug)]
pub struct BloomFilter {
    k_hashes: usize,
    bytes: Vec<u8>,
}

impl View for BloomFilter {
    type V = Seq<u8>;

    closed spec fn view(&self) -> Seq<u8> {
        self.bytes@
    }
}

impl Clone for BloomFilter {
    fn clone(&self) -> (r: Self)
        ensures
            r@ == self@,
            r.spec_hash_count() == self.spec_hash_count(),
    {
        proof {
            use_type_invariant(self);
        }
        BloomFilter { k_hashes: self.k_hashes, bytes: self.bytes.clone() }
    }
}

impl BloomFilter {
    #[verifier::type_invariant]
    spec fn bits_fit(self) -> bool {
        8 * self.bytes@.len() <= usize::MAX
    }

    /// The number of bits set for each item.
    pub closed spec fn spec_hash_count(&self) -> nat {
        self.k_hashes as nat
    }

    /// An empty filter of `bloom_bytes` bytes for about `n_elems` items, with
    /// the number of hash rounds that suits that load.
    pub fn new_from_size(bloom_bytes: usize, n_elems: u64) -> (r: Self)
        requires
            bloom_bytes > 0,
            n_elems > 0,
            8 * bloom_bytes <= usize::MAX,
        ensures
            r@ == Seq::new(bloom_bytes as nat, |i: int| 0u8),
            r.spec_hash_count() == optimal_k_for(8 * bloom_bytes as nat, n_elems as nat),
    {
        let params = BloomParams::new_from_size(bloom_bytes, n_elems);
        Self::zeroed(params)
    }

    /// Like `new_from_size`, with the size first rounded up to a power of two.
    pub fn new_from_size_po2(min_bytes: usize, n_elems: u64) -> (r: Self)
        requires
            min_bytes > 0,
            n_elems > 0,
            8 * next_pow2(min_bytes as nat) <= usize::MAX,
        ensures
            r@ == Seq::new(next_pow2(min_bytes as nat), |i: int| 0u8),
            r@.len() >= min_bytes,
            r.spec_hash_count() == optimal_k_for(8 * next_pow2(min_bytes as nat), n_elems as nat),
    {
        let params = BloomParams::new_from_size_po2(min_bytes, n_elems);
        Self::zeroed(params)
    }

    fn zeroed(params: BloomParams) -> (r: Self)
        requires
            8 * params.byte_size <= usize::MAX,
        ensures
            r@ == Seq::new(params.byte_size as nat, |i: int| 0u8),
            r.spec_hash_count() == params.k_hashes,
    {
        let bytes = vec![0u8; params.byte_size];
        proof {
            assert(bytes@ =~= Seq::new(params.byte_size as nat, |i: int| 0u8));
        }
        BloomFilter { k_hashes: params.k_hashes, bytes }
    }

    /// A filter from its parts, as taken apart by `hash_count` and `as_bytes`.
    /// Nothing is checked: a zero `k_hashes` gives a filter that reports every
    /// item, as does an empty `bytes`.
    pub fn new_with(k_hashes: usize, bytes: Vec<u8>) -> (r: Self)
        requires
            8 * bytes@.len() <= usize::MAX,
        ensures
            r@ == bytes@,
            r.spec_hash_count() == k_hashes,
    {
        BloomFilter { k_hashes, bytes }
    }

    /// The filter's size and number of hash rounds.
    pub fn get_bloom_params(&self) -> (r: BloomParams)
        ensures
            r.byte_size == self@.len(),
            r.k_hashes == self.spec_hash_count(),
    {
        BloomParams { k_hashes: self.k_hashes, byte_size: self.bytes.len() }
    }

    /// The number of set bits.
    pub fn count_ones(&self) -> (r: usize)
        ensures
            r == bit_set(self@).len(),
    {
        proof {
            use_type_invariant(self);
        }
        count_ones(self.bytes.as_slice())
    }

    /// Inserts an item: sets each of its indices.
    pub fn insert(&mut self, item: &[u8])
        ensures
            final(self)@.len() == old(self)@.len(),
            final(self).spec_hash_count() == old(self).spec_hash_count(),
            bit_set(final(self)@) == insert_spec(
                bit_set(old(self)@),
                8 * old(self)@.len(),
                old(self).spec_hash_count(),
                item@,
            ),
    {
        proof {
            use_type_invariant(&*self);
        }
        let idx = indices_in(self.bytes.len(), self.k_hashes, item);
        set_indices(&mut self.bytes, &idx);
    }

    /// Whether the item may have been inserted: all its indices are set.
    pub fn contains(&self, item: &[u8]) -> (r: bool)
        ensures
            r == contains_spec(self@, self.spec_hash_count(), item@),
    {
        proof {
            use_type_invariant(self);
        }
        contains_item(self.bytes.as_slice(), self.k_hashes, item)
    }

    /// The number of bits set for each item.
    pub fn hash_count(&self) -> (r: usize)
        ensures
            r == self.spec_hash_count(),
    {
        self.k_hashes
    }

    /// The raw bytes.
    pub fn as_bytes(&self) -> (r: &[u8])
        ensures
            r@ == self@,
    {
        self.bytes.as_slice()
    }

    /// The indices that inserting the item sets.
    pub fn hash_indices(&self, item: &[u8]) -> (r: Vec<usize>)
        ensures
            as_nats(r@) == hash_indices_of(item@, 8 * self@.len(), self.spec_hash_count()),
    {
        proof {
            use_type_invariant(self);
        }
        indices_in(self.bytes.len(), self.k_hashes, item)
    }
}

} // verus!
