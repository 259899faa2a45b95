//! Insertion, lookup and counting on a bit buffer, shared by the filter
//! variants, and what holds of them over any sequence of inserts.
use crate::bits::{bit_set, get_bit, lemma_bits_determine_bytes, lemma_zeros_have_no_bits, set_bit};
use crate::common::{as_nats, hash_indices_of, lemma_indices_in_range, HashIndexIterator};
use vstd::prelude::*;

verus! {

/// Whether every index of `idx` is in `bits`.
pub open spec fn all_set(bits: Set<nat>, idx: Seq<nat>) -> bool {
    forall|j: int| 0 <= j < idx.len() ==> bits.contains(#[trigger] idx[j])
}

/// Whether a filter holding `bytes` and setting `k` bits per item reports `item`.
pub open spec fn contains_spec(bytes: Seq<u8>, k: nat, item: Seq<u8>) -> bool {
    all_set(bit_set(bytes), hash_indices_of(item, 8 * bytes.len(), k))
}

/// The set bits after inserting `item` into a filter of `bit_size` bits whose
/// set bits were `bits`.
pub open spec fn insert_spec(bits: Set<nat>, bit_size: nat, k: nat, item: Seq<u8>) -> Set<nat> {
    bits.union(hash_indices_of(item, bit_size, k).to_set())
}

/// The set bits after inserting each of `items`, in order, starting from `start`.
pub open spec fn bits_after_inserts(
    start: Set<nat>,
    bit_size: nat,
    k: nat,
    items: Seq<Seq<u8>>,
) -> Set<nat>
    decreases items.len(),
{
    if items.len() == 0 {
        start
    } else {
        insert_spec(
            bits_after_inserts(start, bit_size, k, items.drop_last()),
            bit_size,
            k,
            items.last(),
        )
    }
}

/// The `k` indices of `item` in a filter of `bit_size` bits.
pub fn item_indices(item: &[u8], bit_size: usize, k: usize) -> (r: Vec<usize>)
    ensures
        as_nats(r@) == hash_indices_of(item@, bit_size as nat, k as nat),
{
    HashIndexIterator::new(item, bit_size).take(k)
}

/// Sets every bit listed in `idx`.
pub fn set_indices(bytes: &mut Vec<u8>, idx: &Vec<usize>)
    requires
        forall|t: int| 0 <= t < idx@.len() ==> #[trigger] idx@[t] < 8 * old(bytes)@.len(),
    ensures
        final(bytes)@.len() == old(bytes)@.len(),
        bit_set(final(bytes)@) == bit_set(old(bytes)@).union(as_nats(idx@).to_set()),
    no_unwind
{
    let ghost len = bytes@.len();
    let ghost start = bit_set(bytes@);
    let ghost idxs = as_nats(idx@);
    proof {
        assert(idxs.take(0).to_set() =~= Set::<nat>::empty());
        assert(start.union(Set::<nat>::empty()) =~= start);
    }
    let mut j: usize = 0;
    while j < idx.len()
        invariant
            j <= idx@.len(),
            bytes@.len() == len,
            idxs == as_nats(idx@),
            forall|t: int| 0 <= t < idx@.len() ==> #[trigger] idx@[t] < 8 * len,
            bit_set(bytes@) == start.union(idxs.take(j as int).to_set()),
        decreases idx@.len() - j,
    {
        set_bit(bytes, idx[j]);
        proof {
            assert(idxs.take(j + 1) =~= idxs.take(j as int).push(idxs[j as int]));
            idxs.take(j as int).lemma_push_to_set_commute(idxs[j as int]);
            assert(bit_set(bytes@) =~= start.union(idxs.take(j + 1).to_set()));
        }
        j = j + 1;
    }
    proof {
        assert(idxs.take(idx@.len() as int) =~= idxs);
    }
}

/// The `k` indices of `item` in a filter of `byte_size` bytes.
pub fn indices_in(byte_size: usize, k: usize, item: &[u8]) -> (r: Vec<usize>)
    requires
        8 * byte_size <= usize::MAX,
    ensures
        as_nats(r@) == hash_indices_of(item@, 8 * byte_size as nat, k as nat),
        forall|t: int| 0 <= t < r@.len() ==> #[trigger] r@[t] < 8 * byte_size,
{
    let r = item_indices(item, byte_size * 8, k);
    proof {
        lemma_indices_in_range(item@, 8 * byte_size as nat, 0, k as nat);
        assert forall|t: int| 0 <= t < r@.len() implies #[trigger] r@[t] < 8 * byte_size by {
            assert(as_nats(r@)[t] == r@[t] as nat);
        }
    }
    r
}

/// Whether every index of `item` is set in `bytes`.
pub fn contains_item(bytes: &[u8], k: usize, item: &[u8]) -> (r: bool)
    requires
        8 * bytes@.len() <= usize::MAX,
    ensures
        r == contains_spec(bytes@, k as nat, item@),
{
    let bit_size = bytes.len() * 8;
    let idx = item_indices(item, bit_size, k);
    let ghost idxs = as_nats(idx@);
    proof {
        lemma_indices_in_range(item@, bit_size as nat, 0, k as nat);
    }
    let mut j: usize = 0;
    while j < idx.len()
        invariant
            j <= idx.len(),
            bit_size == 8 * bytes@.len(),
            idxs == as_nats(idx@),
            idxs == hash_indices_of(item@, bit_size as nat, k as nat),
            forall|t: int| 0 <= t < idxs.len() ==> #[trigger] idxs[t] < bit_size,
            forall|t: int| 0 <= t < j ==> bit_set(bytes@).contains(#[trigger] idxs[t]),
        decreases idx.len() - j,
    {
        proof {
            assert(idxs[j as int] == idx@[j as int] as nat);
        }
        if !get_bit(bytes, idx[j]) {
            proof {
                assert(!bit_set(bytes@).contains(idxs[j as int]));
            }
            return false;
        }
        j = j + 1;
    }
    true
}

/// No false negatives: once an item has been inserted, the filter reports it,
/// whatever was inserted before or after it.
pub proof fn lemma_no_false_negatives(
    start: Set<nat>,
    bit_size: nat,
    k: nat,
    items: Seq<Seq<u8>>,
    j: int,
)
    requires
        0 <= j < items.len(),
    ensures
        all_set(bits_after_inserts(start, bit_size, k, items), hash_indices_of(items[j], bit_size, k)),
    decreases items.len(),
{
    let idx = hash_indices_of(items[j], bit_size, k);
    let after = bits_after_inserts(start, bit_size, k, items);
    if j == items.len() - 1 {
        assert forall|t: int| 0 <= t < idx.len() implies after.contains(#[trigger] idx[t]) by {
            assert(idx.to_set().contains(idx[t]));
        }
    } else {
        let before = items.drop_last();
        assert(before[j] == items[j]);
        lemma_no_false_negatives(start, bit_size, k, before, j);
        let mid = bits_after_inserts(start, bit_size, k, before);
        assert forall|t: int| 0 <= t < idx.len() implies after.contains(#[trigger] idx[t]) by {
            assert(mid.contains(idx[t]));
        }
    }
}

proof fn lemma_inserts_members(start: Set<nat>, bit_size: nat, k: nat, items: Seq<Seq<u8>>, p: nat)
    ensures
        bits_after_inserts(start, bit_size, k, items).contains(p) <==> (start.contains(p) || exists|
            j: int,
        |
            0 <= j < items.len() && #[trigger] hash_indices_of(
                items[j],
                bit_size,
                k,
            ).contains(p)),
    decreases items.len(),
{
    if items.len() > 0 {
        let before = items.drop_last();
        lemma_inserts_members(start, bit_size, k, before, p);
        let last = items.len() - 1;
        if exists|j: int| 0 <= j < items.len() && #[trigger] hash_indices_of(items[j], bit_size, k).contains(p) {
            let j = choose|j: int| 0 <= j < items.len() && #[trigger] hash_indices_of(items[j], bit_size, k).contains(p);
            if j < last {
                assert(before[j] == items[j]);
            } else {
                assert(hash_indices_of(items.last(), bit_size, k).to_set().contains(p));
            }
        }
        if exists|j: int| 0 <= j < before.len() && #[trigger] hash_indices_of(before[j], bit_size, k).contains(p) {
            let j = choose|j: int| 0 <= j < before.len() && #[trigger] hash_indices_of(before[j], bit_size, k).contains(p);
            assert(items[j] == before[j]);
        }
    }
}

/// Determinism: two buffers of one length that started empty and took the same
/// items, in any order and with any repeats, hold the same bytes.
pub proof fn lemma_deterministic(
    a: Seq<u8>,
    b: Seq<u8>,
    k: nat,
    xs: Seq<Seq<u8>>,
    ys: Seq<Seq<u8>>,
)
    requires
        a.len() == b.len(),
        xs.to_set() == ys.to_set(),
        bit_set(a) == bits_after_inserts(Set::empty(), 8 * a.len(), k, xs),
        bit_set(b) == bits_after_inserts(Set::empty(), 8 * b.len(), k, ys),
    ensures
        a == b,
{
    let bit_size = 8 * a.len();
    assert forall|p: nat| #[trigger] bit_set(a).contains(p) == bit_set(b).contains(p) by {
        lemma_inserts_members(Set::empty(), bit_size, k, xs, p);
        lemma_inserts_members(Set::empty(), bit_size, k, ys, p);
        if exists|j: int| 0 <= j < xs.len() && #[trigger] hash_indices_of(xs[j], bit_size, k).contains(p) {
            let j = choose|j: int| 0 <= j < xs.len() && #[trigger] hash_indices_of(xs[j], bit_size, k).contains(p);
            assert(xs.to_set().contains(xs[j]));
            assert(ys.to_set().contains(xs[j]));
            let i = choose|i: int| 0 <= i < ys.len() && ys[i] == xs[j];
            assert(hash_indices_of(ys[i], bit_size, k).contains(p));
        }
        if exists|j: int| 0 <= j < ys.len() && #[trigger] hash_indices_of(ys[j], bit_size, k).contains(p) {
            let j = choose|j: int| 0 <= j < ys.len() && #[trigger] hash_indices_of(ys[j], bit_size, k).contains(p);
            assert(ys.to_set().contains(ys[j]));
            assert(xs.to_set().contains(ys[j]));
            let i = choose|i: int| 0 <= i < xs.len() && xs[i] == ys[j];
            assert(hash_indices_of(xs[i], bit_size, k).contains(p));
        }
    }
    assert(bit_set(a) =~= bit_set(b));
    lemma_bits_determine_bytes(a, b);
}

/// A filter of no bytes reports every item: an item has no index to check there.
pub proof fn lemma_empty_filter_contains_all(k: nat, item: Seq<u8>)
    ensures
        contains_spec(Seq::empty(), k, item),
{
    let idx = hash_indices_of(item, 0, k);
    if k > 0 {
        assert(idx =~= Seq::<nat>::empty());
    }
}

/// A fresh filter has no bit set; after one insert it has at most `k` bits set,
/// fewer only where indices of the item coincide.
pub proof fn lemma_count_after_one_insert(len: nat, k: nat, item: Seq<u8>)
    ensures
        bit_set(Seq::new(len, |i: int| 0u8)).len() == 0,
        bit_set(Seq::new(len, |i: int| 0u8)).finite(),
        insert_spec(bit_set(Seq::new(len, |i: int| 0u8)), 8 * len, k, item).finite(),
        insert_spec(bit_set(Seq::new(len, |i: int| 0u8)), 8 * len, k, item).len() <= k,
{
    lemma_zeros_have_no_bits(len);
    let idx = hash_indices_of(item, 8 * len, k);
    lemma_indices_in_range(item, 8 * len, 0, k);
    idx.lemma_cardinality_of_set();
    assert(Set::<nat>::empty().union(idx.to_set()) =~= idx.to_set());
}

} // verus!
