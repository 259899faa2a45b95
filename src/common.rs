//! What both filter variants share: the deterministic index generator, the
//! sizing parameters, and the import error.
use vstd::arithmetic::div_mod::{lemma_div_is_ordered_by_denominator, lemma_multiply_divide_lt};
use vstd::prelude::*;

verus! {

/// The 64-bit XXH3 hash of `data` under `seed`.
pub uninterp spec fn xxh3_of(data: Seq<u8>, seed: u64) -> u64;

/// Relies on `xxhash_rust::xxh3::xxh3_64_with_seed`: a 64-bit hash that depends
/// on the input bytes and the seed alone (no per-process state), and never panics.
#[verifier::external_body]
fn xxh3_64_with_seed(data: &[u8], seed: u64) -> (r: u64)
    ensures
        r == xxh3_of(data@, seed),
{
    xxhash_rust::xxh3::xxh3_64_with_seed(data, seed)
}

/// Doubles `p` until it reaches at least `n`.
pub open spec fn pow2_from(n: nat, p: nat) -> nat
    decreases (if p >= n { 0 } else { n - p }),
{
    if p == 0 || p >= n {
        p
    } else {
        pow2_from(n, 2 * p)
    }
}

/// The least power of two that is at least `n` (one for zero).
pub open spec fn next_pow2(n: nat) -> nat {
    pow2_from(n, 1)
}

proof fn lemma_pow2_from_bounds(n: nat, p: nat)
    requires
        p > 0,
    ensures
        pow2_from(n, p) >= n,
        pow2_from(n, p) >= p,
    decreases (if p >= n { 0 } else { n - p }),
{
    if p < n {
        lemma_pow2_from_bounds(n, 2 * p);
    }
}

/// The least power of two that is at least `n`, as a wide integer.
fn next_pow2_wide(n: usize) -> (r: u128)
    ensures
        r == next_pow2(n as nat),
        r >= 1,
        r >= n,
{
    let mut p: u128 = 1;
    while p < n as u128
        invariant
            1 <= p <= 2 * (n as nat) + 1,
            pow2_from(n as nat, p as nat) == next_pow2(n as nat),
        decreases (if p >= n as u128 { 0 } else { n - p }),
    {
        p = p * 2;
    }
    p
}

/// The candidate index that round `round` draws for `item` in a filter of
/// `bit_size` bits: the round's hash reduced modulo the next power of two.
pub open spec fn sample(item: Seq<u8>, bit_size: nat, round: nat) -> nat {
    (xxh3_of(item, round as u64) as nat) % next_pow2(bit_size)
}

/// The first round from `round` on whose candidate lies below `bit_size`;
/// none for an empty filter, or once the 64-bit round counter is spent.
pub open spec fn first_accepted(item: Seq<u8>, bit_size: nat, round: nat) -> Option<nat>
    decreases u64::MAX - round,
{
    if bit_size == 0 || round >= u64::MAX {
        None
    } else if sample(item, bit_size, round) < bit_size {
        Some(round)
    } else {
        first_accepted(item, bit_size, round + 1)
    }
}

/// The next `count` indices that the generator yields from round `round` on.
pub open spec fn indices_from(item: Seq<u8>, bit_size: nat, round: nat, count: nat) -> Seq<nat>
    decreases count,
{
    if count == 0 {
        Seq::empty()
    } else {
        match first_accepted(item, bit_size, round) {
            None => Seq::empty(),
            Some(r) => seq![sample(item, bit_size, r)] + indices_from(
                item,
                bit_size,
                r + 1,
                (count - 1) as nat,
            ),
        }
    }
}

/// Indices widened to mathematical integers.
pub open spec fn as_nats(s: Seq<usize>) -> Seq<nat> {
    s.map_values(|v: usize| v as nat)
}

/// The `k` indices that an item sets or checks in a filter of `bit_size` bits.
pub open spec fn hash_indices_of(item: Seq<u8>, bit_size: nat, k: nat) -> Seq<nat> {
    indices_from(item, bit_size, 0, k)
}

proof fn lemma_first_accepted_in_range(item: Seq<u8>, bit_size: nat, round: nat)
    ensures
        first_accepted(item, bit_size, round) matches Some(r) ==> round <= r < u64::MAX
            && sample(item, bit_size, r) < bit_size,
    decreases u64::MAX - round,
{
    if bit_size != 0 && round < u64::MAX && sample(item, bit_size, round) >= bit_size {
        lemma_first_accepted_in_range(item, bit_size, round + 1);
    }
}

/// Every index that the generator yields lies below the filter's bit count,
/// whether or not that count is a power of two; and it yields at most the
/// number of indices asked for.
pub proof fn lemma_indices_in_range(item: Seq<u8>, bit_size: nat, round: nat, count: nat)
    ensures
        indices_from(item, bit_size, round, count).len() <= count,
        forall|j: int|
            0 <= j < indices_from(item, bit_size, round, count).len() ==> #[trigger] indices_from(
                item,
                bit_size,
                round,
                count,
            )[j] < bit_size,
    decreases count,
{
    if count > 0 {
        lemma_first_accepted_in_range(item, bit_size, round);
        if let Some(r) = first_accepted(item, bit_size, round) {
            lemma_indices_in_range(item, bit_size, r + 1, (count - 1) as nat);
        }
    }
}

/// A lazy, restartable generator of bit indices for one item: each round hashes
/// the item with the round number as seed, and rejects candidates that fall
/// outside the filter.
pub struct HashIndexIterator<'a> {
    item: &'a [u8],
    bit_size: usize,
    index: u64,
}

impl<'a> HashIndexIterator<'a> {
    /// The item whose indices are generated.
    pub closed spec fn spec_item(&self) -> Seq<u8> {
        self.item@
    }

    /// The number of bits of the filter the indices are for.
    pub closed spec fn spec_bit_size(&self) -> nat {
        self.bit_size as nat
    }

    /// The next round to be hashed.
    pub closed spec fn spec_round(&self) -> nat {
        self.index as nat
    }

    /// Creates a generator that starts at round zero.
    pub fn new(item: &'a [u8], bit_size: usize) -> (r: Self)
        ensures
            r.spec_item() == item@,
            r.spec_bit_size() == bit_size,
            r.spec_round() == 0,
    {
        HashIndexIterator { item, bit_size, index: 0 }
    }

    /// Yields the next index, below the bit count; none for an empty filter.
    pub fn next(&mut self) -> (r: Option<usize>)
        ensures
            final(self).spec_item() == old(self).spec_item(),
            final(self).spec_bit_size() == old(self).spec_bit_size(),
            match first_accepted(old(self).spec_item(), old(self).spec_bit_size(), old(self).spec_round()) {
                None => r is None,
                Some(round) => r == Some(
                    sample(old(self).spec_item(), old(self).spec_bit_size(), round) as usize,
                ) && final(self).spec_round() == round + 1,
            },
            r matches Some(v) ==> v < old(self).spec_bit_size(),
    {
        if self.bit_size == 0 {
            // An empty filter has no index to give: stop instead of retrying forever.
            return None;
        }
        let bit_size_po2 = next_pow2_wide(self.bit_size);
        let ghost start = self.index as nat;
        loop
            invariant
                self.item == old(self).item,
                self.bit_size == old(self).bit_size,
                self.bit_size > 0,
                bit_size_po2 == next_pow2(self.bit_size as nat),
                bit_size_po2 >= 1,
                first_accepted(self.item@, self.bit_size as nat, self.index as nat)
                    == first_accepted(self.item@, self.bit_size as nat, start),
                start == old(self).index,
            decreases u64::MAX - self.index,
        {
            if self.index == u64::MAX {
                return None;
            }
            let hash = xxh3_64_with_seed(self.item, self.index);
            self.index = self.index + 1;
            // Rejection sampling for non-power-of-two bit sizes
            let value = hash as u128 % bit_size_po2;
            if value < self.bit_size as u128 {
                return Some(value as usize);
            }
        }
    }

    /// The next `count` indices, consuming the generator.
    pub fn take(self, count: usize) -> (r: Vec<usize>)
        ensures
            as_nats(r@) == indices_from(
                self.spec_item(),
                self.spec_bit_size(),
                self.spec_round(),
                count as nat,
            ),
    {
        let ghost item = self.spec_item();
        let ghost bit_size = self.spec_bit_size();
        let ghost whole = indices_from(item, bit_size, self.spec_round(), count as nat);
        let mut iter = self;
        let mut out: Vec<usize> = Vec::new();
        let mut n: usize = 0;
        while n < count
            invariant
                n <= count,
                whole == indices_from(self.spec_item(), self.spec_bit_size(), self.spec_round(), count as nat),
                item == self.spec_item(),
                bit_size == self.spec_bit_size(),
                iter.spec_item() == item,
                iter.spec_bit_size() == bit_size,
                as_nats(out@) + indices_from(
                    item,
                    bit_size,
                    iter.spec_round(),
                    (count - n) as nat,
                ) == whole,
            decreases count - n,
        {
            let ghost round = iter.spec_round();
            let ghost rest = indices_from(item, bit_size, round, (count - n) as nat);
            proof {
                lemma_first_accepted_in_range(item, bit_size, round);
            }
            match iter.next() {
                None => {
                    proof {
                        assert(rest =~= Seq::<nat>::empty());
                        assert(as_nats(out@) + rest =~= as_nats(out@));
                    }
                    return out;
                },
                Some(v) => {
                    let ghost before = out@;
                    out.push(v);
                    n = n + 1;
                    proof {
                        let tail = indices_from(
                            item,
                            bit_size,
                            iter.spec_round(),
                            (count - n) as nat,
                        );
                        assert(rest == seq![v as nat] + tail);
                        assert(as_nats(out@) =~= as_nats(before).push(v as nat));
                        assert(as_nats(out@) + tail =~= as_nats(before) + rest);
                    }
                },
            }
        }
        proof {
            assert(indices_from(item, bit_size, iter.spec_round(), 0) =~= Seq::<nat>::empty());
            assert(as_nats(out@) + Seq::<nat>::empty() =~= as_nats(out@));
        }
        out
    }
}

/// Errors of filter operations.
#[derive(Clone, Copy, PartialEq, Eq, Debug)]
pub enum Error {
    /// A filter was imported from a byte vector of the wrong length.
    VectorImportSizeMismatch {
        /// The byte size of the filter.
        expected: usize,
        /// The length of the vector.
        actual: usize,
    },
}

/// ln 2 as a binary fraction: `LN2_FRAC / FRAC_ONE` is ln 2 rounded to 64 bits.
pub const LN2_FRAC: u128 = 12786308645202655660;

/// One, on the scale of `LN2_FRAC`.
pub const FRAC_ONE: u128 = 18446744073709551616;

/// `a / d`, rounded up.
pub open spec fn ceil_div(a: nat, d: nat) -> nat {
    if a % d == 0 {
        a / d
    } else {
        a / d + 1
    }
}

/// The optimal number of hash rounds for `bloom_bits` bits holding `n_elems`
/// items: `max(1, ceil(bloom_bits / n_elems * ln 2))`.
pub open spec fn optimal_k_for(bloom_bits: nat, n_elems: nat) -> nat {
    let k = ceil_div(bloom_bits * (LN2_FRAC as nat), n_elems * (FRAC_ONE as nat));
    if k == 0 {
        1
    } else {
        k
    }
}

/// Parameters of a filter: its size in bytes and the number of bits each item sets.
#[derive(Clone, Copy, PartialEq, Eq, Debug)]
pub struct BloomParams {
    /// size of the bloom filter in bytes, non-zero
    pub byte_size: usize,
    /// hashing functions used/number of bits set per element, non-zero
    pub k_hashes: usize,
}

impl BloomParams {
    /// Optimal parameters for a filter of `byte_size` bytes that is to hold
    /// `n_elems` items: only the number of hash rounds is derived.
    pub fn new_from_size(byte_size: usize, n_elems: u64) -> (r: Self)
        requires
            byte_size > 0,
            n_elems > 0,
            8 * byte_size <= usize::MAX,
        ensures
            r.byte_size == byte_size,
            r.k_hashes == optimal_k_for(8 * byte_size as nat, n_elems as nat),
    {
        BloomParams { byte_size, k_hashes: Self::optimal_k_hashes(byte_size * 8, n_elems) }
    }

    /// Like `new_from_size`, with the size first rounded up to a power of two,
    /// which spares the index generator any rejection.
    pub fn new_from_size_po2(min_byte_size: usize, n_elems: u64) -> (r: Self)
        requires
            min_byte_size > 0,
            n_elems > 0,
            8 * next_pow2(min_byte_size as nat) <= usize::MAX,
        ensures
            r.byte_size == next_pow2(min_byte_size as nat),
            r.byte_size >= min_byte_size,
            r.k_hashes == optimal_k_for(8 * r.byte_size as nat, n_elems as nat),
    {
        let byte_size = next_pow2_wide(min_byte_size) as usize;
        Self::new_from_size(byte_size, n_elems)
    }

    pub(crate) fn optimal_k_hashes(bloom_bits: usize, n_elems: u64) -> (r: usize)
        requires
            bloom_bits > 0,
            n_elems > 0,
        ensures
            r == optimal_k_for(bloom_bits as nat, n_elems as nat),
            1 <= r <= bloom_bits,
    {
        let num: u128 = bloom_bits as u128 * LN2_FRAC;
        let den: u128 = n_elems as u128 * FRAC_ONE;
        proof {
            assert(num < (bloom_bits as int) * (FRAC_ONE as int)) by (nonlinear_arith)
                requires
                    num == (bloom_bits as int) * (LN2_FRAC as int),
                    bloom_bits > 0,
                    LN2_FRAC < FRAC_ONE,
            ;
            assert(den >= FRAC_ONE) by (nonlinear_arith)
                requires
                    den == (n_elems as int) * (FRAC_ONE as int),
                    n_elems >= 1,
            ;
            lemma_div_is_ordered_by_denominator(num as int, FRAC_ONE as int, den as int);
            lemma_multiply_divide_lt(num as int, FRAC_ONE as int, bloom_bits as int);
        }
        let whole = num / den;
        let k = if num % den == 0 {
            whole
        } else {
            whole + 1
        };
        if k == 0 {
            1
        } else {
            k as usize
        }
    }
}

} // verus!
