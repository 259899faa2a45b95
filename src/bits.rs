//! The bit buffer behind every filter: bit `i` lives in byte `i / 8`, at
//! position `i % 8` counted from the least-significant bit.
use vstd::prelude::*;

verus! {

/// Whether bit `i` of `bytes` is set.
pub open spec fn bit_at(bytes: Seq<u8>, i: nat) -> bool {
    (bytes[(i / 8) as int] >> ((i % 8) as u8)) & 1u8 == 1u8
}

/// The positions of all set bits of `bytes`.
pub open spec fn bit_set(bytes: Seq<u8>) -> Set<nat> {
    Set::new(|i: nat| i < 8 * bytes.len() && bit_at(bytes, i))
}

/// The positions of the set bits of `bytes` below `n`.
spec fn bits_below(bytes: Seq<u8>, n: nat) -> Set<nat> {
    Set::new(|i: nat| i < n && i < 8 * bytes.len() && bit_at(bytes, i))
}

proof fn lemma_or_shift(b: u8, j: u8, q: u8)
    requires
        j < 8,
        q < 8,
    ensures
        (((b | (1u8 << j)) >> q) & 1u8 == 1u8) == (q == j || (b >> q) & 1u8 == 1u8),
{
    assert((((b | (1u8 << j)) >> q) & 1u8 == 1u8) == (q == j || (b >> q) & 1u8 == 1u8))
        by (bit_vector)
        requires
            j < 8,
            q < 8,
    ;
}

proof fn lemma_byte_from_bits(x: u8, y: u8)
    requires
        (x >> 0u8) & 1u8 == (y >> 0u8) & 1u8,
        (x >> 1u8) & 1u8 == (y >> 1u8) & 1u8,
        (x >> 2u8) & 1u8 == (y >> 2u8) & 1u8,
        (x >> 3u8) & 1u8 == (y >> 3u8) & 1u8,
        (x >> 4u8) & 1u8 == (y >> 4u8) & 1u8,
        (x >> 5u8) & 1u8 == (y >> 5u8) & 1u8,
        (x >> 6u8) & 1u8 == (y >> 6u8) & 1u8,
        (x >> 7u8) & 1u8 == (y >> 7u8) & 1u8,
    ensures
        x == y,
{
    assert(x == y) by (bit_vector)
        requires
            (x >> 0u8) & 1u8 == (y >> 0u8) & 1u8,
            (x >> 1u8) & 1u8 == (y >> 1u8) & 1u8,
            (x >> 2u8) & 1u8 == (y >> 2u8) & 1u8,
            (x >> 3u8) & 1u8 == (y >> 3u8) & 1u8,
            (x >> 4u8) & 1u8 == (y >> 4u8) & 1u8,
            (x >> 5u8) & 1u8 == (y >> 5u8) & 1u8,
            (x >> 6u8) & 1u8 == (y >> 6u8) & 1u8,
            (x >> 7u8) & 1u8 == (y >> 7u8) & 1u8,
    ;
}

proof fn lemma_bit_of_byte(x: u8, y: u8, q: u8)
    requires
        q < 8,
    ensures
        (((x >> q) & 1u8 == 1u8) == ((y >> q) & 1u8 == 1u8)) ==> ((x >> q) & 1u8 == (y >> q)
            & 1u8),
        (0u8 >> q) & 1u8 != 1u8,
{
    assert((((x >> q) & 1u8 == 1u8) == ((y >> q) & 1u8 == 1u8)) ==> ((x >> q) & 1u8 == (y
        >> q) & 1u8)) by (bit_vector);
    assert((0u8 >> q) & 1u8 != 1u8) by (bit_vector);
}

proof fn lemma_same_bit(a: Seq<u8>, b: Seq<u8>, k: int, q: u8)
    requires
        a.len() == b.len(),
        bit_set(a) == bit_set(b),
        0 <= k < a.len(),
        q < 8,
    ensures
        (a[k] >> q) & 1u8 == (b[k] >> q) & 1u8,
{
    let p: nat = (8 * k + q) as nat;
    assert(p / 8 == k && p % 8 == q as nat);
    assert(((p % 8) as u8) == q);
    assert(p < 8 * a.len());
    assert(bit_set(a).contains(p) == bit_set(b).contains(p));
    assert(bit_at(a, p) == ((a[k] >> q) & 1u8 == 1u8));
    assert(bit_at(b, p) == ((b[k] >> q) & 1u8 == 1u8));
    assert(bit_set(a).contains(p) == bit_at(a, p));
    assert(bit_set(b).contains(p) == bit_at(b, p));
    assert(((a[k] >> q) & 1u8 == 1u8) == ((b[k] >> q) & 1u8 == 1u8));
    lemma_bit_of_byte(a[k], b[k], q);
    assert((a[k] >> q) & 1u8 == (b[k] >> q) & 1u8);
}

/// Two buffers of one length with the same set bits are the same bytes.
pub proof fn lemma_bits_determine_bytes(a: Seq<u8>, b: Seq<u8>)
    requires
        a.len() == b.len(),
        bit_set(a) == bit_set(b),
    ensures
        a == b,
{
    assert forall|k: int| 0 <= k < a.len() implies a[k] == b[k] by {
        lemma_same_bit(a, b, k, 0);
        lemma_same_bit(a, b, k, 1);
        lemma_same_bit(a, b, k, 2);
        lemma_same_bit(a, b, k, 3);
        lemma_same_bit(a, b, k, 4);
        lemma_same_bit(a, b, k, 5);
        lemma_same_bit(a, b, k, 6);
        lemma_same_bit(a, b, k, 7);
        lemma_byte_from_bits(a[k], b[k]);
    }
    assert(a =~= b);
}

/// A buffer of zero bytes has no bit set.
pub proof fn lemma_zeros_have_no_bits(len: nat)
    ensures
        bit_set(Seq::new(len, |i: int| 0u8)) == Set::<nat>::empty(),
{
    let z = Seq::new(len, |i: int| 0u8);
    assert forall|p: nat| !bit_set(z).contains(p) by {
        if p < 8 * len {
            lemma_bit_of_byte(0, 0, (p % 8) as u8);
        }
    }
    assert(bit_set(z) =~= Set::<nat>::empty());
}

/// Reads bit `i` of `bytes`.
pub fn get_bit(bytes: &[u8], i: usize) -> (r: bool)
    requires
        i < 8 * bytes@.len(),
    ensures
        r == bit_at(bytes@, i as nat),
{
    (bytes[i / 8] >> ((i % 8) as u8)) & 1u8 == 1u8
}

/// Sets bit `i` of `bytes`, leaving every other bit as it was.
pub fn set_bit(bytes: &mut Vec<u8>, i: usize)
    requires
        i < 8 * old(bytes)@.len(),
    ensures
        final(bytes)@.len() == old(bytes)@.len(),
        bit_set(final(bytes)@) == bit_set(old(bytes)@).insert(i as nat),
    no_unwind
{
    let ghost before = bytes@;
    let byte = bytes[i / 8];
    let shift = (i % 8) as u8;
    bytes[i / 8] = byte | (1u8 << shift);
    proof {
        assert forall|p: nat| #[trigger] bit_set(bytes@).contains(p) == bit_set(before).insert(
            i as nat,
        ).contains(p) by {
            if p < 8 * before.len() {
                if p / 8 == i / 8 {
                    lemma_or_shift(byte, shift, (p % 8) as u8);
                }
            }
        }
        assert(bit_set(bytes@) =~= bit_set(before).insert(i as nat));
    }
}

/// The number of set bits in `bytes`.
pub fn count_ones(bytes: &[u8]) -> (r: usize)
    requires
        8 * bytes@.len() <= usize::MAX,
    ensures
        bit_set(bytes@).finite(),
        r == bit_set(bytes@).len(),
{
    let n = bytes.len() * 8;
    let mut count: usize = 0;
    let mut i: usize = 0;
    proof {
        assert(bits_below(bytes@, 0) =~= Set::<nat>::empty());
    }
    while i < n
        invariant
            i <= n,
            n == 8 * bytes@.len(),
            count <= i,
            bits_below(bytes@, i as nat).finite(),
            count == bits_below(bytes@, i as nat).len(),
        decreases n - i,
    {
        if get_bit(bytes, i) {
            proof {
                assert(bits_below(bytes@, (i + 1) as nat) =~= bits_below(bytes@, i as nat).insert(
                    i as nat,
                ));
            }
            count = count + 1;
        } else {
            proof {
                assert(bits_below(bytes@, (i + 1) as nat) =~= bits_below(bytes@, i as nat));
            }
        }
        i = i + 1;
    }
    proof {
        assert(bits_below(bytes@, n as nat) =~= bit_set(bytes@));
    }
    count
}

} // verus!
