//! A filter whose byte size `N` and number of hash rounds `K` are fixed at
//! compile time.
use crate::bits::{bit_at, bit_set, count_ones, get_bit};
use crate::common::{as_nats, hash_indices_of, Error};
use crate::filter::{contains_item, contains_spec, indices_in, insert_spec, item_indices, set_indices};
use vstd::prelude::*;

verus! {

/// A Bloom filter of `N` bytes that sets `K` bits for each item.
#[derive(PartialEq, Eq, Debug)]
pub struct BloomFilter<const N: usize, const K: usize> {
    bytes: Vec<u8>,
}

impl<const N: usize, const K: usize> View for BloomFilter<N, K> {
    type V = Seq<u8>;

    closed spec fn view(&self) -> Seq<u8> {
        self.bytes@
    }
}

impl<const N: usize, const K: usize> Clone for BloomFilter<N, K> {
    fn clone(&self) -> (r: Self)
        ensures
            r@ == self@,
    {
        proof {
            use_type_invariant(self);
        }
        BloomFilter { bytes: self.bytes.clone() }
    }
}

impl<const N: usize, const K: usize> BloomFilter<N, K> {
    #[verifier::type_invariant]
    spec fn well_sized(self) -> bool {
        &&& self.bytes@.len() == N
        &&& 8 * N <= usize::MAX
    }

    /// Creates a filter with all bits unset.
    pub fn new() -> (r: Self)
        requires
            8 * N <= usize::MAX,
        ensures
            r@ == Seq::new(N as nat, |i: int| 0u8),
    {
        let bytes = vec![0u8; N];
        proof {
            assert(bytes@ =~= Seq::new(N as nat, |i: int| 0u8));
        }
        BloomFilter { bytes }
    }

    /// What importing `bytes` gives: the filter's bytes, or the size mismatch.
    pub open spec fn import_spec(bytes: Seq<u8>) -> Result<Seq<u8>, Error> {
        if bytes.len() == N {
            Ok(bytes)
        } else {
            Err(Error::VectorImportSizeMismatch { expected: N, actual: bytes.len() as usize })
        }
    }

    /// Imports a filter from its bytes, which must number exactly `N`.
    pub fn try_from(bytes: Vec<u8>) -> (r: Result<Self, Error>)
        requires
            8 * N <= usize::MAX,
        ensures
            match r {
                Ok(f) => Self::import_spec(bytes@) == Ok::<Seq<u8>, Error>(f@),
                Err(e) => Self::import_spec(bytes@) == Err::<Seq<u8>, Error>(e),
            },
    {
        if bytes.len() == N {
            Ok(BloomFilter { bytes })
        } else {
            Err(Error::VectorImportSizeMismatch { expected: N, actual: bytes.len() })
        }
    }

    /// Round trip: bytes of length `N` come back unchanged from an import
    /// followed by `as_bytes`, and bytes of any other length are refused with
    /// both lengths.
    pub proof fn lemma_import_round_trip(bytes_in: Seq<u8>)
        ensures
            bytes_in.len() == N ==> Self::import_spec(bytes_in) == Ok::<Seq<u8>, Error>(bytes_in),
            bytes_in.len() != N ==> Self::import_spec(bytes_in) is Err,
    {
    }

    /// Inserts an item: sets each of its `K` indices.
    pub fn insert(&mut self, item: &[u8])
        ensures
            final(self)@.len() == N,
            bit_set(final(self)@) == insert_spec(bit_set(old(self)@), 8 * N as nat, K as nat, item@),
    {
        proof {
            use_type_invariant(&*self);
        }
        let idx = indices_in(N, K, item);
        set_indices(&mut self.bytes, &idx);
    }

    /// The number of bits set for each item.
    pub fn hash_count(&self) -> (r: usize)
        ensures
            r == K,
    {
        K
    }

    /// Whether the item may have been inserted: all its indices are set.
    pub fn contains(&self, item: &[u8]) -> (r: bool)
        ensures
            self@.len() == N,
            r == contains_spec(self@, K as nat, item@),
    {
        proof {
            use_type_invariant(self);
        }
        contains_item(self.bytes.as_slice(), K, item)
    }

    /// The number of set bits.
    pub fn count_ones(&self) -> (r: usize)
        ensures
            r == bit_set(self@).len(),
    {
        proof {
            use_type_invariant(self);
        }
        count_ones(self.bytes.as_slice())
    }

    /// The indices that inserting the item sets.
    pub fn hash_indices(&self, item: &[u8]) -> (r: Vec<usize>)
        ensures
            as_nats(r@) == hash_indices_of(item@, 8 * N as nat, K as nat),
    {
        proof {
            use_type_invariant(self);
        }
        item_indices(item, N * 8, K)
    }

    /// The raw bytes, `N` of them.
    pub fn as_bytes(&self) -> (r: &[u8])
        ensures
            r@ == self@,
            r@.len() == N,
    {
        proof {
            use_type_invariant(self);
        }
        self.bytes.as_slice()
    }

    /// Whether bit `index` is set.
    pub fn index(&self, index: usize) -> (r: bool)
        requires
            index < 8 * N,
        ensures
            r == bit_at(self@, index as nat),
    {
        proof {
            use_type_invariant(self);
        }
        get_bit(self.bytes.as_slice(), index)
    }
}

} // verus!
