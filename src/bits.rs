//! Bit-level facts about the 16-bit slot map and the 32-bit readiness words.
use vstd::prelude::*;

verus! {

/// Bit `i` of a 16-bit word.
pub open spec fn bit16(x: u16, i: u16) -> bool {
    (x >> i) & 1u16 == 1u16
}

/// Bit `i` of a 32-bit word.
pub open spec fn bit32(x: u32, i: u32) -> bool {
    (x >> i) & 1u32 == 1u32
}

/// Number of set bits among bits `i..16` of `x`.
pub open spec fn popcount_from(x: u16, i: u16) -> nat
    decreases 16 - i,
{
    if i >= 16 {
        0
    } else {
        (if bit16(x, i) { 1nat } else { 0nat }) + popcount_from(x, (i + 1) as u16)
    }
}

/// Number of set bits of `x`.
pub open spec fn popcount16(x: u16) -> nat {
    popcount_from(x, 0)
}

pub proof fn lemma_bit16_set(x: u16, k: u16, i: u16)
    requires
        k < 16,
        i < 16,
    ensures
        bit16(x | (1u16 << k), i) == (i == k || bit16(x, i)),
{
    assert(((x | (1u16 << k)) >> i) & 1u16 == 1u16 <==> (i == k || (x >> i) & 1u16 == 1u16))
        by (bit_vector)
        requires
            k < 16,
            i < 16,
    ;
}

pub proof fn lemma_bit16_clear(x: u16, k: u16, i: u16)
    requires
        k < 16,
        i < 16,
    ensures
        bit16(x & !(1u16 << k), i) == (i != k && bit16(x, i)),
{
    assert(((x & !(1u16 << k)) >> i) & 1u16 == 1u16 <==> (i != k && (x >> i) & 1u16 == 1u16))
        by (bit_vector)
        requires
            k < 16,
            i < 16,
    ;
}

/// A 16-bit word whose bits are all set is `0xffff`.
pub proof fn lemma_bit16_full(x: u16)
    requires
        forall|i: u16| i < 16 ==> #[trigger] bit16(x, i),
    ensures
        x == 0xffffu16,
{
    assert(bit16(x, 0));
    assert(bit16(x, 1));
    assert(bit16(x, 2));
    assert(bit16(x, 3));
    assert(bit16(x, 4));
    assert(bit16(x, 5));
    assert(bit16(x, 6));
    assert(bit16(x, 7));
    assert(bit16(x, 8));
    assert(bit16(x, 9));
    assert(bit16(x, 10));
    assert(bit16(x, 11));
    assert(bit16(x, 12));
    assert(bit16(x, 13));
    assert(bit16(x, 14));
    assert(bit16(x, 15));
    assert(x == 0xffffu16) by (bit_vector)
        requires
            (x >> 0u16) & 1u16 == 1u16,
            (x >> 1u16) & 1u16 == 1u16,
            (x >> 2u16) & 1u16 == 1u16,
            (x >> 3u16) & 1u16 == 1u16,
            (x >> 4u16) & 1u16 == 1u16,
            (x >> 5u16) & 1u16 == 1u16,
            (x >> 6u16) & 1u16 == 1u16,
            (x >> 7u16) & 1u16 == 1u16,
            (x >> 8u16) & 1u16 == 1u16,
            (x >> 9u16) & 1u16 == 1u16,
            (x >> 10u16) & 1u16 == 1u16,
            (x >> 11u16) & 1u16 == 1u16,
            (x >> 12u16) & 1u16 == 1u16,
            (x >> 13u16) & 1u16 == 1u16,
            (x >> 14u16) & 1u16 == 1u16,
            (x >> 15u16) & 1u16 == 1u16,
    ;
}

proof fn lemma_popcount_from_set(x: u16, k: u16, i: u16)
    requires
        k < 16,
        i <= 16,
        !bit16(x, k),
    ensures
        popcount_from(x | (1u16 << k), i) == popcount_from(x, i) + (if i <= k { 1nat } else { 0nat }),
    decreases 16 - i,
{
    if i < 16 {
        lemma_bit16_set(x, k, i);
        lemma_popcount_from_set(x, k, (i + 1) as u16);
    }
}

proof fn lemma_popcount_from_clear(x: u16, k: u16, i: u16)
    requires
        k < 16,
        i <= 16,
        bit16(x, k),
    ensures
        popcount_from(x & !(1u16 << k), i) + (if i <= k { 1nat } else { 0nat }) == popcount_from(x, i),
    decreases 16 - i,
{
    if i < 16 {
        lemma_bit16_clear(x, k, i);
        lemma_popcount_from_clear(x, k, (i + 1) as u16);
    }
}

/// At most one bit per position is counted.
pub proof fn lemma_popcount_bound(x: u16, i: u16)
    requires
        i <= 16,
    ensures
        popcount_from(x, i) <= 16 - i,
    decreases 16 - i,
{
    if i < 16 {
        lemma_popcount_bound(x, (i + 1) as u16);
    }
}

/// Setting a clear bit adds one to the population count.
pub proof fn lemma_popcount_set(x: u16, k: u16)
    requires
        k < 16,
        !bit16(x, k),
    ensures
        popcount16(x | (1u16 << k)) == popcount16(x) + 1,
{
    lemma_popcount_from_set(x, k, 0);
}

/// Clearing a set bit takes one from the population count.
pub proof fn lemma_popcount_clear(x: u16, k: u16)
    requires
        k < 16,
        bit16(x, k),
    ensures
        popcount16(x & !(1u16 << k)) + 1 == popcount16(x),
{
    lemma_popcount_from_clear(x, k, 0);
}

/// No bit of zero is set.
pub proof fn lemma_popcount_zero(i: u16)
    requires
        i <= 16,
    ensures
        popcount_from(0u16, i) == 0,
    decreases 16 - i,
{
    if i < 16 {
        assert((0u16 >> i) & 1u16 != 1u16) by (bit_vector);
        lemma_popcount_zero((i + 1) as u16);
    }
}

pub proof fn lemma_bit32_set(x: u32, k: u32, i: u32)
    requires
        k < 32,
        i < 32,
    ensures
        bit32(x | (1u32 << k), i) == (i == k || bit32(x, i)),
{
    assert(((x | (1u32 << k)) >> i) & 1u32 == 1u32 <==> (i == k || (x >> i) & 1u32 == 1u32))
        by (bit_vector)
        requires
            k < 32,
            i < 32,
    ;
}

pub proof fn lemma_bit32_clear(x: u32, k: u32, i: u32)
    requires
        k < 32,
        i < 32,
    ensures
        bit32(x & !(1u32 << k), i) == (i != k && bit32(x, i)),
{
    assert(((x & !(1u32 << k)) >> i) & 1u32 == 1u32 <==> (i != k && (x >> i) & 1u32 == 1u32))
        by (bit_vector)
        requires
            k < 32,
            i < 32,
    ;
}

/// `x` with bit `k` set to `on`.
pub open spec fn word_with(x: u32, k: u32, on: bool) -> u32 {
    if on {
        x | (1u32 << k)
    } else {
        x & !(1u32 << k)
    }
}

/// Bit `i` of `word_with(x, k, on)`.
pub proof fn lemma_word_with(x: u32, k: u32, on: bool, i: u32)
    requires
        k < 32,
        i < 32,
    ensures
        bit32(word_with(x, k, on), i) == (if i == k { on } else { bit32(x, i) }),
{
    if on {
        lemma_bit32_set(x, k, i);
    } else {
        lemma_bit32_clear(x, k, i);
    }
}

/// Bit `i` of `a & b`.
pub proof fn lemma_bit32_and(a: u32, b: u32, i: u32)
    requires
        i < 32,
    ensures
        bit32(a & b, i) == (bit32(a, i) && bit32(b, i)),
{
    assert(((a & b) >> i) & 1u32 == 1u32 <==> ((a >> i) & 1u32 == 1u32 && (b >> i) & 1u32 == 1u32))
        by (bit_vector)
        requires
            i < 32,
    ;
}

/// Bit `i` of `a | b`.
pub proof fn lemma_bit32_or(a: u32, b: u32, i: u32)
    requires
        i < 32,
    ensures
        bit32(a | b, i) == (bit32(a, i) || bit32(b, i)),
{
    assert(((a | b) >> i) & 1u32 == 1u32 <==> ((a >> i) & 1u32 == 1u32 || (b >> i) & 1u32 == 1u32))
        by (bit_vector)
        requires
            i < 32,
    ;
}

/// `x` with bit `k` set to `on`, every other bit kept.
pub fn with_bit32(x: u32, k: u32, on: bool) -> (r: u32)
    requires
        k < 32,
    ensures
        r == word_with(x, k, on),
        forall|i: u32| i < 32 ==> #[trigger] bit32(r, i) == (if i == k { on } else { bit32(x, i) }),
{
    let r = if on { x | (1u32 << k) } else { x & !(1u32 << k) };
    proof {
        assert forall|i: u32| i < 32 implies #[trigger] bit32(r, i) == (if i == k { on } else { bit32(x, i) }) by {
            if on {
                lemma_bit32_set(x, k, i);
            } else {
                lemma_bit32_clear(x, k, i);
            }
        }
    }
    r
}

/// `x` with bit `k` set, every other bit kept.
pub fn with_bit16(x: u16, k: u16) -> (r: u16)
    requires
        k < 16,
    ensures
        r == x | (1u16 << k),
        forall|i: u16| i < 16 ==> #[trigger] bit16(r, i) == (i == k || bit16(x, i)),
        !bit16(x, k) ==> popcount16(r) == popcount16(x) + 1,
        bit16(x, k) ==> r == x,
{
    let r = x | (1u16 << k);
    proof {
        assert forall|i: u16| i < 16 implies #[trigger] bit16(r, i) == (i == k || bit16(x, i)) by {
            lemma_bit16_set(x, k, i);
        }
        if !bit16(x, k) {
            lemma_popcount_set(x, k);
        } else {
            assert((x >> k) & 1u16 == 1u16 ==> x | (1u16 << k) == x) by (bit_vector)
                requires
                    k < 16,
            ;
        }
    }
    r
}

/// `x` with bit `k` cleared, every other bit kept.
pub fn without_bit16(x: u16, k: u16) -> (r: u16)
    requires
        k < 16,
    ensures
        r == x & !(1u16 << k),
        forall|i: u16| i < 16 ==> #[trigger] bit16(r, i) == (i != k && bit16(x, i)),
        bit16(x, k) ==> popcount16(r) + 1 == popcount16(x),
{
    let r = x & !(1u16 << k);
    proof {
        assert forall|i: u16| i < 16 implies #[trigger] bit16(r, i) == (i != k && bit16(x, i)) by {
            lemma_bit16_clear(x, k, i);
        }
        if bit16(x, k) {
            lemma_popcount_clear(x, k);
        }
    }
    r
}

/// Whether bit `k` of `x` is set.
pub fn test_bit16(x: u16, k: u16) -> (r: bool)
    requires
        k < 16,
    ensures
        r == bit16(x, k),
{
    (x >> k) & 1u16 == 1u16
}

/// Whether bit `k` of `x` is set.
pub fn test_bit32(x: u32, k: u32) -> (r: bool)
    requires
        k < 32,
    ensures
        r == bit32(x, k),
{
    (x >> k) & 1u32 == 1u32
}

} // verus!
