//! Integer logarithms, used to size the division trees after the number of
//! threads.
use vstd::prelude::*;
use vstd::arithmetic::power2::{lemma2_to64, lemma2_to64_rest, lemma_pow2_unfold, pow2};

verus! {

/// The largest `k` with `2^k <= n` (0 for `n == 0`).
pub open spec fn spec_floor_log2(n: nat) -> nat
    decreases n,
{
    if n <= 1 {
        0
    } else {
        1 + spec_floor_log2(n / 2)
    }
}

/// The smallest `k` with `n <= 2^k` (0 for `n <= 1`).
pub open spec fn spec_ceil_log2(n: nat) -> nat {
    if n <= 1 {
        0
    } else {
        spec_floor_log2((n - 1) as nat) + 1
    }
}

proof fn lemma_floor_log2_below(n: nat, k: nat)
    requires
        k >= 1,
        n < pow2(k),
    ensures
        spec_floor_log2(n) < k,
    decreases n,
{
    if n > 1 {
        lemma_pow2_unfold(k);
        if k == 1 {
            assert(pow2(0) == 1) by {
                lemma2_to64();
            }
        } else {
            lemma_pow2_unfold(k);
            lemma_floor_log2_below(n / 2, (k - 1) as nat);
        }
    }
}

/// `floor(log2(n))`, with 0 for 0.
pub fn floor_log2(n: usize) -> (r: u32)
    ensures
        r == spec_floor_log2(n as nat),
        r < 64,
{
    proof {
        lemma2_to64_rest();
        lemma_floor_log2_below(n as nat, 64);
    }
    let mut k: u32 = 0;
    let mut m: usize = n;
    while m > 1
        invariant
            spec_floor_log2(n as nat) == k + spec_floor_log2(m as nat),
            k + spec_floor_log2(m as nat) < 64,
        decreases m,
    {
        m = m / 2;
        k = k + 1;
    }
    k
}

/// `ceil(log2(n))`, with 0 for 0 and 1.
pub fn ceil_log2(n: usize) -> (r: u32)
    ensures
        r == spec_ceil_log2(n as nat),
        r <= 64,
{
    if n <= 1 {
        0
    } else {
        floor_log2(n - 1) + 1
    }
}

} // verus!
