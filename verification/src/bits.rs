//! Bit-level facts about 64-bit words: single-bit tests and population count.

use vstd::prelude::*;

verus! {

/// Whether bit `i` of `x` is one. Positions are counted from the least
/// significant bit; only `i < 64` is meaningful.
pub open spec fn bit_is_set(x: u64, i: nat) -> bool {
    (x >> (i as u64)) & 1 == 1
}

/// Number of one-bits of `x` among the positions below `n`.
pub open spec fn ones_below(x: u64, n: nat) -> nat
    decreases n,
{
    if n == 0 {
        0
    } else {
        ones_below(x, (n - 1) as nat) + if bit_is_set(x, (n - 1) as nat) {
            1nat
        } else {
            0nat
        }
    }
}

/// Number of one-bits in the binary representation of `x`.
pub open spec fn popcount(x: u64) -> nat {
    ones_below(x, 64)
}

/// `u64::count_ones` of the standard library: the number of ones in the
/// binary representation of its argument.
pub assume_specification[ u64::count_ones ](x: u64) -> (r: u32)
    ensures
        r == popcount(x),
;

/// A count of bits below `n` never exceeds `n`.
pub proof fn lemma_ones_below_bound(x: u64, n: nat)
    ensures
        ones_below(x, n) <= n,
    decreases n,
{
    if n > 0 {
        lemma_ones_below_bound(x, (n - 1) as nat);
    }
}

/// A word without one-bits below `n` has count zero there, and conversely.
pub proof fn lemma_ones_below_zero(x: u64, n: nat)
    ensures
        ones_below(x, n) == 0 <==> forall|i: nat| i < n ==> !bit_is_set(x, i),
    decreases n,
{
    if n > 0 {
        lemma_ones_below_zero(x, (n - 1) as nat);
        if ones_below(x, n) == 0 {
            assert forall|i: nat| i < n implies !bit_is_set(x, i) by {
                if i < n - 1 {
                } else {
                    assert(i == (n - 1) as nat);
                }
            }
        } else {
            if forall|i: nat| i < n ==> !bit_is_set(x, i) {
                assert(!bit_is_set(x, (n - 1) as nat));
                assert(forall|i: nat| i < (n - 1) as nat ==> !bit_is_set(x, i));
                assert(false);
            }
        }
    }
}

/// The zero word has no bit set.
pub proof fn lemma_zero_has_no_bits(i: nat)
    requires
        i < 64,
    ensures
        !bit_is_set(0, i),
{
    let s = i as u64;
    assert((0u64 >> s) & 1 == 0) by (bit_vector);
}

/// Setting bit `k` with `|` turns that bit on and leaves the others as they were.
pub proof fn lemma_or_sets_one_bit(w: u64, k: nat, j: nat)
    requires
        k < 64,
        j < 64,
    ensures
        bit_is_set(w | (1u64 << (k as u64)), j) == (j == k || bit_is_set(w, j)),
{
    let ks = k as u64;
    let js = j as u64;
    assert(((w | (1u64 << ks)) >> js) & 1 == 1 <==> (js == ks || (w >> js) & 1 == 1)) by (bit_vector)
        requires
            ks < 64,
            js < 64,
    ;
}

/// Testing `w & (1 << k)` against zero reads bit `k`.
pub proof fn lemma_and_reads_one_bit(w: u64, k: nat)
    requires
        k < 64,
    ensures
        (w & (1u64 << (k as u64)) != 0) == bit_is_set(w, k),
{
    let ks = k as u64;
    assert((w & (1u64 << ks) != 0) <==> ((w >> ks) & 1 == 1)) by (bit_vector)
        requires
            ks < 64,
    ;
}

/// The word whose bits below `n` are one and whose other bits are zero.
pub fn low_mask(n: u64) -> (mask: u64)
    requires
        0 < n < 64,
    ensures
        forall|j: nat| j < 64 ==> bit_is_set(mask, j) == (j < n),
        mask == ((1u64 << n) - 1) as u64,
{
    let one: u64 = 1;
    assert((1u64 << n) >= 1) by (bit_vector)
        requires
            0 < n < 64,
    ;
    let mask: u64 = (one << n) - 1;
    proof {
        assert forall|j: nat| j < 64 implies bit_is_set(mask, j) == (j < n) by {
            let js = j as u64;
            assert(((mask >> js) & 1 == 1) <==> js < n) by (bit_vector)
                requires
                    0 < n < 64,
                    js < 64,
                    mask == (1u64 << n) - 1,
            ;
        }
    }
    mask
}

/// Two words that agree below `n` have the same count there.
pub proof fn lemma_ones_below_agree(x: u64, y: u64, n: nat)
    requires
        forall|j: nat| j < n ==> bit_is_set(x, j) == bit_is_set(y, j),
    ensures
        ones_below(x, n) == ones_below(y, n),
    decreases n,
{
    if n > 0 {
        lemma_ones_below_agree(x, y, (n - 1) as nat);
    }
}

/// Bits that are all clear from `m` up add nothing to a count.
pub proof fn lemma_ones_below_clear_tail(x: u64, m: nat, n: nat)
    requires
        m <= n,
        forall|j: nat| m <= j < n ==> !bit_is_set(x, j),
    ensures
        ones_below(x, n) == ones_below(x, m),
    decreases n,
{
    if m < n {
        lemma_ones_below_clear_tail(x, m, (n - 1) as nat);
    }
}

/// Masking a word to its low `n` bits leaves exactly the ones below `n`.
pub proof fn lemma_masked_popcount(w: u64, n: nat)
    requires
        0 < n < 64,
    ensures
        popcount(w & (((1u64 << (n as u64)) - 1) as u64)) == ones_below(w, n),
{
    let ns = n as u64;
    assert((1u64 << ns) >= 1) by (bit_vector)
        requires
            0 < ns < 64,
    ;
    let masked = w & (((1u64 << ns) - 1) as u64);
    assert forall|j: nat| j < 64 implies bit_is_set(masked, j) == (j < n && bit_is_set(w, j)) by {
        let js = j as u64;
        let m = ((1u64 << ns) - 1) as u64;
        assert((((w & m) >> js) & 1 == 1) <==> (js < ns && (w >> js) & 1 == 1)) by (bit_vector)
            requires
                0 < ns < 64,
                js < 64,
                m == (1u64 << ns) - 1,
        ;
    }
    lemma_ones_below_clear_tail(masked, n, 64);
    lemma_ones_below_agree(masked, w, n);
}

/// The exclusive-or of a word with itself has no one-bits.
pub proof fn lemma_popcount_xor_self(x: u64)
    ensures
        popcount(x ^ x) == 0,
{
    assert(x ^ x == 0) by (bit_vector);
    assert forall|i: nat| i < 64 implies !bit_is_set(0u64, i) by {
        lemma_zero_has_no_bits(i);
    }
    lemma_ones_below_zero(0u64, 64);
}

} // verus!
