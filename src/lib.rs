//! Deterministic Bloom filters: the same items always give the same bits, in
//! every process and on every platform.
use crate::bits::{bit_set, count_ones};
use crate::common::{as_nats, hash_indices_of, next_pow2, optimal_k_for, BloomParams};
use crate::filter::{contains_item, contains_spec, indices_in, insert_spec, set_indices};
use vstd::prelude::*;

pub mod bits;
pub mod common;
pub mod const_size;
pub mod filter;
pub mod runtime_size;

pub use crate::common::{Error, HashIndexIterator};
pub use crate::const_size::BloomFilter;

verus! {

/// The number of bits a filter sets for each item.
#[derive(Clone, Copy, PartialEq, Eq, PartialOrd, Ord, Debug)]
pub struct BloomParameters {
    k_hashes: usize,
}

impl BloomParameters {
    /// The number of bits set for each item.
    pub closed spec fn spec_k_hashes(&self) -> nat {
        self.k_hashes as nat
    }

    /// The optimal number of hash rounds for `bloom_bytes` bytes holding `n_elems` items.
    pub fn new_from_size(bloom_bytes: usize, n_elems: u64) -> (r: Self)
        requires
            bloom_bytes > 0,
            n_elems > 0,
            8 * bloom_bytes <= usize::MAX,
        ensures
            r.spec_k_hashes() == optimal_k_for(8 * bloom_bytes as nat, n_elems as nat),
    {
        BloomParameters { k_hashes: Self::optimal_k_hashes(bloom_bytes * 8, n_elems) }
    }

    /// The least power-of-two byte size from `min_bytes` on, and the optimal
    /// number of hash rounds for it.
    pub fn new_from_size_po2(min_bytes: usize, n_elems: u64) -> (r: (usize, Self))
        requires
            min_bytes > 0,
            n_elems > 0,
            8 * next_pow2(min_bytes as nat) <= usize::MAX,
        ensures
            r.0 == next_pow2(min_bytes as nat),
            r.0 >= min_bytes,
            r.1.spec_k_hashes() == optimal_k_for(8 * r.0 as nat, n_elems as nat),
    {
        let params = BloomParams::new_from_size_po2(min_bytes, n_elems);
        (params.byte_size, BloomParameters { k_hashes: params.k_hashes })
    }

    /// The number of bits set for each item.
    pub fn k_hashes(&self) -> (r: usize)
        ensures
            r == self.spec_k_hashes(),
    {
        self.k_hashes
    }

    fn optimal_k_hashes(bloom_bits: usize, n_elems: u64) -> (r: usize)
        requires
            bloom_bits > 0,
            n_elems > 0,
        ensures
            r == optimal_k_for(bloom_bits as nat, n_elems as nat),
    {
        BloomParams::optimal_k_hashes(bloom_bits, n_elems)
    }
}

/// A Bloom filter sized at run time, with its parameters kept beside its bytes.
#[derive(PartialEq, Eq, Debug)]
pub struct DynBloomFilter {
    parameters: BloomParameters,
    bytes: Vec<u8>,
}

impl View for DynBloomFilter {
    type V = Seq<u8>;

    closed spec fn view(&self) -> Seq<u8> {
        self.bytes@
    }
}

impl Clone for DynBloomFilter {
    fn clone(&self) -> (r: Self)
        ensures
            r@ == self@,
            r.spec_hash_count() == self.spec_hash_count(),
    {
        proof {
            use_type_invariant(self);
        }
        DynBloomFilter { parameters: self.parameters, bytes: self.bytes.clone() }
    }
}

impl DynBloomFilter {
    #[verifier::type_invariant]
    spec fn bits_fit(self) -> bool {
        8 * self.bytes@.len() <= usize::MAX
    }

    /// The number of bits set for each item.
    pub closed spec fn spec_hash_count(&self) -> nat {
        self.parameters.k_hashes as nat
    }

    /// An empty filter of `bloom_bytes` bytes for about `n_elems` items.
    pub fn new_from_size(bloom_bytes: usize, n_elems: u64) -> (r: Self)
        requires
            bloom_bytes > 0,
            n_elems > 0,
            8 * bloom_bytes <= usize::MAX,
        ensures
            r@ == Seq::new(bloom_bytes as nat, |i: int| 0u8),
            r.spec_hash_count() == optimal_k_for(8 * bloom_bytes as nat, n_elems as nat),
    {
        let parameters = BloomParameters::new_from_size(bloom_bytes, n_elems);
        Self::zeroed(bloom_bytes, parameters)
    }

    /// Like `new_from_size`, with the size first rounded up to a power of two.
    pub fn new_from_size_po2(min_bytes: usize, n_elems: u64) -> (r: Self)
        requires
            min_bytes > 0,
            n_elems > 0,
            8 * next_pow2(min_bytes as nat) <= usize::MAX,
        ensures
            r@ == Seq::new(next_pow2(min_bytes as nat), |i: int| 0u8),
            r@.len() >= min_bytes,
            r.spec_hash_count() == optimal_k_for(8 * next_pow2(min_bytes as nat), n_elems as nat),
    {
        let (bloom_bytes, parameters) = BloomParameters::new_from_size_po2(min_bytes, n_elems);
        Self::zeroed(bloom_bytes, parameters)
    }

    fn zeroed(bloom_bytes: usize, parameters: BloomParameters) -> (r: Self)
        requires
            8 * bloom_bytes <= usize::MAX,
        ensures
            r@ == Seq::new(bloom_bytes as nat, |i: int| 0u8),
            r.spec_hash_count() == parameters.spec_k_hashes(),
    {
        let bytes = vec![0u8; bloom_bytes];
        proof {
            assert(bytes@ =~= Seq::new(bloom_bytes as nat, |i: int| 0u8));
        }
        DynBloomFilter { parameters, bytes }
    }

    /// The number of set bits.
    pub fn count_ones(&self) -> (r: usize)
        ensures
            r == bit_set(self@).len(),
    {
        proof {
            use_type_invariant(self);
        }
        count_ones(self.bytes.as_slice())
    }

    /// Inserts an item: sets each of its indices.
    pub fn insert(&mut self, item: &[u8])
        ensures
            final(self)@.len() == old(self)@.len(),
            final(self).spec_hash_count() == old(self).spec_hash_count(),
            bit_set(final(self)@) == insert_spec(
                bit_set(old(self)@),
                8 * old(self)@.len(),
                old(self).spec_hash_count(),
                item@,
            ),
    {
        proof {
            use_type_invariant(&*self);
        }
        let idx = indices_in(self.bytes.len(), self.parameters.k_hashes, item);
        set_indices(&mut self.bytes, &idx);
    }

    /// Whether the item may have been inserted: all its indices are set.
    pub fn contains(&self, item: &[u8]) -> (r: bool)
        ensures
            r == contains_spec(self@, self.spec_hash_count(), item@),
    {
        proof {
            use_type_invariant(self);
        }
        contains_item(self.bytes.as_slice(), self.parameters.k_hashes, item)
    }

    /// The number of bits set for each item.
    pub fn hash_count(&self) -> (r: usize)
        ensures
            r == self.spec_hash_count(),
    {
        self.parameters.k_hashes
    }

    /// The raw bytes.
    pub fn as_bytes(&self) -> (r: &[u8])
        ensures
            r@ == self@,
    {
        self.bytes.as_slice()
    }

    /// The indices that inserting the item sets.
    pub fn hash_indices(&self, item: &[u8]) -> (r: Vec<usize>)
        ensures
            as_nats(r@) == hash_indices_of(item@, 8 * self@.len(), self.spec_hash_count()),
    {
        proof {
            use_type_invariant(self);
        }
        indices_in(self.bytes.len(), self.parameters.k_hashes, item)
    }
}

} // verus!
