//! Rank-score bit masks: bit `i` stands for the rank of score `i`, and bit 0
//! mirrors the Ace so that A-2-3-4-5 forms a run of five bits.
use vstd::prelude::*;

verus! {

/// Whether bit `i` of `m` is set.
pub open spec fn bit(m: u16, i: int) -> bool {
    0 <= i < 16 && (m >> (i as u16)) & 1u16 == 1u16
}

/// The number of set bits of `m` at positions `lo <= i < hi`.
pub open spec fn count_bits(m: u16, lo: int, hi: int) -> nat
    decreases hi - lo,
{
    if hi <= lo {
        0
    } else {
        (if bit(m, lo) { 1nat } else { 0nat }) + count_bits(m, lo + 1, hi)
    }
}

/// The mask of the `n` highest set bits of `m` at positions `1 <= i < hi`
/// (all of them where there are fewer than `n`). Position 0, the Ace mirror,
/// never takes part.
pub open spec fn top_bits(m: u16, n: nat, hi: int) -> u16
    decreases hi,
{
    if hi <= 1 || n == 0 {
        0
    } else if bit(m, hi - 1) {
        top_bits(m, (n - 1) as nat, hi - 1) | (1u16 << ((hi - 1) as u16))
    } else {
        top_bits(m, n, hi - 1)
    }
}

/// The kicker mask made of the `n` highest ranks present in `m`.
pub open spec fn kickers(m: u16, n: nat) -> u16 {
    top_bits(m, n, 16)
}

/// The highest position `i < hi` whose bit is set in `m`, or -1 if none is.
pub open spec fn msb(m: u16, hi: int) -> int
    decreases hi,
{
    if hi <= 0 {
        -1
    } else if bit(m, hi - 1) {
        hi - 1
    } else {
        msb(m, hi - 1)
    }
}

/// `m` with bit `k` cleared.
pub open spec fn clear_bit(m: u16, k: int) -> u16 {
    m & !(1u16 << (k as u16))
}

/// Whether bits `i` to `i + 4` of `m` are all set.
pub open spec fn window_full(m: u16, i: int) -> bool {
    m & (0x1Fu16 << (i as u16)) == 0x1Fu16 << (i as u16)
}

/// The score of the top card of the highest run of five found among the
/// windows that start below `k`, looking from the highest window down.
pub open spec fn straight_from(m: u16, k: int) -> Option<int>
    decreases k,
{
    if k <= 0 {
        None
    } else if window_full(m, k - 1) {
        Some(k - 1 + 4)
    } else {
        straight_from(m, k - 1)
    }
}

/// The score of the top card of the best straight in `m`: the ten windows
/// run from bits 0..4 (the wheel) to bits 9..13 (Ace high).
pub open spec fn straight_high(m: u16) -> Option<int> {
    straight_from(m, 10)
}

proof fn bv_set(a: u16, k: u16, j: u16)
    by (bit_vector)
    requires
        k < 16,
        j < 16,
    ensures
        ((a | (1u16 << k)) >> j) & 1u16 == 1u16 <==> ((a >> j) & 1u16 == 1u16 || j == k),
{
}

proof fn bv_clear(a: u16, k: u16, j: u16)
    by (bit_vector)
    requires
        k < 16,
        j < 16,
    ensures
        ((a & !(1u16 << k)) >> j) & 1u16 == 1u16 <==> ((a >> j) & 1u16 == 1u16 && j != k),
{
}

proof fn bv_set_low(a: u16, j: u16)
    by (bit_vector)
    requires
        j < 16,
    ensures
        ((a | 1u16) >> j) & 1u16 == 1u16 <==> ((a >> j) & 1u16 == 1u16 || j == 0),
{
}

proof fn bv_clear_low(a: u16, j: u16)
    by (bit_vector)
    requires
        j < 16,
    ensures
        ((a & !1u16) >> j) & 1u16 == 1u16 <==> ((a >> j) & 1u16 == 1u16 && j != 0),
{
}

proof fn bv_zero(j: u16)
    by (bit_vector)
    ensures
        (0u16 >> j) & 1u16 != 1u16,
{
}

pub proof fn lemma_set_bit(a: u16, k: int, j: int)
    requires
        0 <= k < 16,
    ensures
        bit(a | (1u16 << (k as u16)), j) == (bit(a, j) || j == k),
{
    if 0 <= j < 16 {
        bv_set(a, k as u16, j as u16);
    }
}

pub proof fn lemma_clear_bit(a: u16, k: int, j: int)
    requires
        0 <= k < 16,
    ensures
        bit(clear_bit(a, k), j) == (bit(a, j) && j != k),
{
    if 0 <= j < 16 {
        bv_clear(a, k as u16, j as u16);
    }
}

pub proof fn lemma_set_low(a: u16, j: int)
    ensures
        bit(a | 1u16, j) == (bit(a, j) || j == 0),
{
    if 0 <= j < 16 {
        bv_set_low(a, j as u16);
    }
}

pub proof fn lemma_clear_low(a: u16, j: int)
    ensures
        bit(a & !1u16, j) == (bit(a, j) && j != 0),
{
    if 0 <= j < 16 {
        bv_clear_low(a, j as u16);
    }
}

pub proof fn lemma_zero(j: int)
    ensures
        !bit(0u16, j),
{
    if 0 <= j < 16 {
        bv_zero(j as u16);
    }
}

/// Two masks with the same bits are equal.
pub proof fn lemma_bits_ext(a: u16, b: u16)
    requires
        forall|j: int| 0 <= j < 16 ==> bit(a, j) == bit(b, j),
    ensures
        a == b,
{
    assert(bit(a, 0) == bit(b, 0));
    assert(bit(a, 1) == bit(b, 1));
    assert(bit(a, 2) == bit(b, 2));
    assert(bit(a, 3) == bit(b, 3));
    assert(bit(a, 4) == bit(b, 4));
    assert(bit(a, 5) == bit(b, 5));
    assert(bit(a, 6) == bit(b, 6));
    assert(bit(a, 7) == bit(b, 7));
    assert(bit(a, 8) == bit(b, 8));
    assert(bit(a, 9) == bit(b, 9));
    assert(bit(a, 10) == bit(b, 10));
    assert(bit(a, 11) == bit(b, 11));
    assert(bit(a, 12) == bit(b, 12));
    assert(bit(a, 13) == bit(b, 13));
    assert(bit(a, 14) == bit(b, 14));
    assert(bit(a, 15) == bit(b, 15));
    assert(a == b) by (bit_vector)
        requires
            ((a >> 0u16) & 1u16 == 1u16) == ((b >> 0u16) & 1u16 == 1u16),
            ((a >> 1u16) & 1u16 == 1u16) == ((b >> 1u16) & 1u16 == 1u16),
            ((a >> 2u16) & 1u16 == 1u16) == ((b >> 2u16) & 1u16 == 1u16),
            ((a >> 3u16) & 1u16 == 1u16) == ((b >> 3u16) & 1u16 == 1u16),
            ((a >> 4u16) & 1u16 == 1u16) == ((b >> 4u16) & 1u16 == 1u16),
            ((a >> 5u16) & 1u16 == 1u16) == ((b >> 5u16) & 1u16 == 1u16),
            ((a >> 6u16) & 1u16 == 1u16) == ((b >> 6u16) & 1u16 == 1u16),
            ((a >> 7u16) & 1u16 == 1u16) == ((b >> 7u16) & 1u16 == 1u16),
            ((a >> 8u16) & 1u16 == 1u16) == ((b >> 8u16) & 1u16 == 1u16),
            ((a >> 9u16) & 1u16 == 1u16) == ((b >> 9u16) & 1u16 == 1u16),
            ((a >> 10u16) & 1u16 == 1u16) == ((b >> 10u16) & 1u16 == 1u16),
            ((a >> 11u16) & 1u16 == 1u16) == ((b >> 11u16) & 1u16 == 1u16),
            ((a >> 12u16) & 1u16 == 1u16) == ((b >> 12u16) & 1u16 == 1u16),
            ((a >> 13u16) & 1u16 == 1u16) == ((b >> 13u16) & 1u16 == 1u16),
            ((a >> 14u16) & 1u16 == 1u16) == ((b >> 14u16) & 1u16 == 1u16),
            ((a >> 15u16) & 1u16 == 1u16) == ((b >> 15u16) & 1u16 == 1u16),
    ;
}

/// Counting splits at any middle position.
pub proof fn lemma_count_split(m: u16, lo: int, mid: int, hi: int)
    requires
        lo <= mid <= hi,
    ensures
        count_bits(m, lo, hi) == count_bits(m, lo, mid) + count_bits(m, mid, hi),
    decreases mid - lo,
{
    if lo < mid {
        lemma_count_split(m, lo + 1, mid, hi);
    }
}

/// Counting peels off the highest position.
pub proof fn lemma_count_top(m: u16, lo: int, hi: int)
    requires
        lo < hi,
    ensures
        count_bits(m, lo, hi) == count_bits(m, lo, hi - 1) + (if bit(m, hi - 1) { 1nat } else { 0nat }),
{
    lemma_count_split(m, lo, hi - 1, hi);
    assert(count_bits(m, hi, hi) == 0);
}

/// Masks that agree on `lo <= i < hi` count the same there.
pub proof fn lemma_count_agree(a: u16, b: u16, lo: int, hi: int)
    requires
        forall|j: int| lo <= j < hi ==> bit(a, j) == bit(b, j),
    ensures
        count_bits(a, lo, hi) == count_bits(b, lo, hi),
    decreases hi - lo,
{
    if lo < hi {
        lemma_count_agree(a, b, lo + 1, hi);
    }
}

/// A bit of `top_bits(m, n, hi)` is set exactly where `m` has a set bit at a
/// position `1 <= j < hi` with fewer than `n` set bits above it (below `hi`).
pub proof fn lemma_top_bits(m: u16, n: nat, hi: int, j: int)
    requires
        hi <= 16,
    ensures
        bit(top_bits(m, n, hi), j) == (1 <= j < hi && bit(m, j) && count_bits(m, j + 1, hi) < n),
    decreases hi,
{
    if hi <= 1 || n == 0 {
        lemma_zero(j);
    } else {
        if 1 <= j < hi - 1 {
            lemma_count_top(m, j + 1, hi);
        }
        if bit(m, hi - 1) {
            lemma_top_bits(m, (n - 1) as nat, hi - 1, j);
            lemma_set_bit(top_bits(m, (n - 1) as nat, hi - 1), hi - 1, j);
        } else {
            lemma_top_bits(m, n, hi - 1, j);
        }
    }
}

/// `msb` finds a set bit at or above every set bit below `hi`.
pub proof fn lemma_msb(m: u16, hi: int, j: int)
    requires
        0 <= j < hi,
        bit(m, j),
    ensures
        j <= msb(m, hi) < hi,
        bit(m, msb(m, hi)),
    decreases hi,
{
    if !bit(m, hi - 1) {
        lemma_msb(m, hi - 1, j);
    }
}

} // verus!
