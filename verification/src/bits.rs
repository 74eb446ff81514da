//! Counting the ones of a 64-bit word.

use vstd::prelude::*;

verus! {

/// The number of ones in the binary writing of `x`.
pub open spec fn popcount(x: u64) -> nat
    decreases x,
{
    if x == 0 {
        0
    } else {
        (x % 2) as nat + popcount(x / 2)
    }
}

/// Whether `x` has no one above bit `k`.
pub open spec fn fits_window(x: u64, k: u64) -> bool {
    x >> k <= 1
}

/// `u64::count_ones` of std returns the number of ones in the binary
/// writing of the word.
pub assume_specification[ u64::count_ones ](x: u64) -> (r: u32)
    ensures
        r == popcount(x),
;

/// Setting a bit that was clear adds one to the count.
pub proof fn lemma_popcount_set_bit(x: u64, k: u64)
    requires
        k < 64,
        x & (1u64 << k) == 0,
    ensures
        popcount(x | (1u64 << k)) == popcount(x) + 1,
    decreases k,
{
    let y = x | (1u64 << k);
    if k == 0 {
        assert(x & (1u64 << 0u64) == 0 ==> x % 2 == 0 && (x | (1u64 << 0u64)) % 2 == 1 && (x | (1u64
            << 0u64)) / 2 == x / 2 && (x | (1u64 << 0u64)) != 0) by (bit_vector);
        if x == 0 {
            assert(popcount(0u64 / 2) == 0);
        }
    } else {
        let j = (k - 1) as u64;
        assert(k < 64 && k == j + 1 && x & (1u64 << k) == 0 ==> (x | (1u64 << k)) % 2 == x % 2
            && (x | (1u64 << k)) / 2 == (x / 2) | (1u64 << j) && (x / 2) & (1u64 << j) == 0 && (x
            | (1u64 << k)) != 0) by (bit_vector);
        lemma_popcount_set_bit(x / 2, j);
        if x == 0 {
            assert(popcount(0u64 / 2) == 0);
        }
    }
}

/// A word with no one above bit `k` has at most `k + 1` ones.
pub proof fn lemma_popcount_bound(x: u64, k: u64)
    requires
        k < 64,
        fits_window(x, k),
    ensures
        popcount(x) <= k + 1,
    decreases k,
{
    if x != 0 {
        if k == 0 {
            assert(x >> 0u64 <= 1 ==> x / 2 == 0) by (bit_vector);
            assert(popcount(x / 2) == 0);
        } else {
            let j = (k - 1) as u64;
            assert(k < 64 && k == j + 1 && x >> k <= 1 ==> (x / 2) >> j <= 1) by (bit_vector);
            lemma_popcount_bound(x / 2, j);
        }
    }
}

/// The facts about bit `k` that the window upkeep rests on.
pub proof fn lemma_window_bits(x: u64, k: u64)
    requires
        k < 64,
        fits_window(x, k),
    ensures
        fits_window(x | (1u64 << k), k),
        k < 63 ==> fits_window(x, (k + 1) as u64),
        k < 63 ==> x & (1u64 << ((k + 1) as u64)) == 0,
        (x | (1u64 << k)) & (1u64 << k) != 0,
        x & (1u64 << k) != 0 ==> x | (1u64 << k) == x,
{
    let n = (k + 1) as u64;
    assert(k < 64 && x >> k <= 1 ==> (x | (1u64 << k)) >> k <= 1) by (bit_vector);
    assert(k < 63 && n == k + 1 && x >> k <= 1 ==> x >> n <= 1) by (bit_vector);
    assert(k < 63 && n == k + 1 && x >> k <= 1 ==> x & (1u64 << n) == 0) by (bit_vector);
    assert(k < 64 ==> (x | (1u64 << k)) & (1u64 << k) != 0) by (bit_vector);
    assert(x & (1u64 << k) != 0 ==> x | (1u64 << k) == x) by (bit_vector);
}

/// The zero word fits every window, and the mask of a window is the mask
/// of the window before it, shifted by one.
pub proof fn lemma_window_masks(k: u64)
    requires
        k < 64,
    ensures
        fits_window(0, k),
        1u64 << 0u64 == 1,
        k < 63 ==> (1u64 << k) << 1 == 1u64 << ((k + 1) as u64),
{
    let n = (k + 1) as u64;
    assert(k < 63 && n == k + 1 ==> (1u64 << k) << 1 == 1u64 << n) by (bit_vector);
    assert(k < 64 ==> 0u64 >> k <= 1) by (bit_vector);
    assert(1u64 << 0u64 == 1) by (bit_vector);
}

} // verus!
