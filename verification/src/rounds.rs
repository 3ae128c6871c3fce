//! How many rounds a bracket needs.

use vstd::arithmetic::power2::{
    lemma2_to64, lemma2_to64_rest, lemma_pow2_pos, lemma_pow2_strictly_increases,
    lemma_pow2_unfold, pow2,
};
use vstd::prelude::*;

verus! {

/// The number of halvings (rounding up) that bring `n` contestants down to
/// one. For `n >= 1` this is the base-two logarithm of `n`, rounded up: see
/// [`lemma_ceil_log2_bounds`] and [`lemma_ceil_log2_unique`].
pub open spec fn ceil_log2(n: nat) -> nat
    decreases n,
{
    if n <= 1 {
        0
    } else {
        1 + ceil_log2((n + 1) / 2)
    }
}

/// The number of rounds of a bracket with `n` participants, the round of the
/// participants themselves included.
pub open spec fn round_count(n: nat) -> nat {
    ceil_log2(n) + 1
}

/// `ceil_log2(n)` is an exponent `k` with `2^(k-1) < n <= 2^k`.
pub proof fn lemma_ceil_log2_bounds(n: nat)
    requires
        n >= 1,
    ensures
        n <= pow2(ceil_log2(n)),
        ceil_log2(n) >= 1 ==> pow2((ceil_log2(n) - 1) as nat) < n,
    decreases n,
{
    if n <= 1 {
        lemma2_to64();
    } else {
        let half = (n + 1) / 2;
        lemma_ceil_log2_bounds(half);
        lemma_pow2_unfold(ceil_log2(n));
        if ceil_log2(half) >= 1 {
            lemma_pow2_unfold(ceil_log2(half));
        } else {
            lemma2_to64();
        }
    }
}

/// Only one exponent `k` has `2^(k-1) < n <= 2^k`, so the bounds of
/// [`lemma_ceil_log2_bounds`] determine `ceil_log2(n)`.
pub proof fn lemma_ceil_log2_unique(n: nat, k: nat)
    requires
        n >= 1,
        n <= pow2(k),
        k >= 1 ==> pow2((k - 1) as nat) < n,
    ensures
        k == ceil_log2(n),
{
    let c = ceil_log2(n);
    lemma_ceil_log2_bounds(n);
    if k < c {
        if k < c - 1 {
            lemma_pow2_strictly_increases(k, (c - 1) as nat);
        }
    } else if c < k {
        if c < k - 1 {
            lemma_pow2_strictly_increases(c, (k - 1) as nat);
        }
    }
}

/// A power of two takes exactly its exponent in halvings.
pub proof fn lemma_ceil_log2_pow2(k: nat)
    ensures
        ceil_log2(pow2(k)) == k,
{
    lemma_pow2_pos(k);
    if k >= 1 {
        lemma_pow2_strictly_increases((k - 1) as nat, k);
    }
    lemma_ceil_log2_unique(pow2(k), k);
}

/// More contestants never need fewer halvings.
pub proof fn lemma_ceil_log2_monotonic(a: nat, b: nat)
    requires
        a <= b,
    ensures
        ceil_log2(a) <= ceil_log2(b),
    decreases b,
{
    if a > 1 {
        lemma_ceil_log2_monotonic((a + 1) / 2, (b + 1) / 2);
    }
}

/// No count that fits in `usize` needs more than 64 halvings.
pub proof fn lemma_ceil_log2_fits(n: nat)
    requires
        n <= usize::MAX,
    ensures
        ceil_log2(n) <= 64,
{
    lemma2_to64_rest();
    lemma_ceil_log2_monotonic(n, pow2(64));
    lemma_ceil_log2_pow2(64);
}

/// The number of rounds of a bracket with `count` participants.
pub fn rounds_needed(count: usize) -> (rounds: usize)
    ensures
        rounds == round_count(count as nat),
{
    let mut rounds: usize = 1;
    let mut slots: usize = count;
    proof {
        lemma_ceil_log2_fits(count as nat);
    }
    while slots > 1
        invariant
            rounds + ceil_log2(slots as nat) == round_count(count as nat) <= 65,
        decreases slots,
    {
        slots = slots - slots / 2;
        rounds = rounds + 1;
    }
    rounds
}

} // verus!
