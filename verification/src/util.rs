//! Small arithmetic helpers.

use vstd::prelude::*;

verus! {

/// Two to the power `k`.
pub open spec fn pow2(k: nat) -> nat
    decreases k,
{
    if k == 0 { 1 } else { 2 * pow2((k - 1) as nat) }
}

/// The smallest `k` with `2^k >= n`: the number of bits needed to tell `n`
/// things apart.
pub open spec fn is_log2_ceil(n: nat, k: nat) -> bool {
    &&& pow2(k) >= n
    &&& (k == 0 || pow2((k - 1) as nat) < n)
}

proof fn lemma_pow2_exceeds(k: nat)
    ensures
        pow2(k) >= k + 1,
    decreases k,
{
    if k > 0 {
        lemma_pow2_exceeds((k - 1) as nat);
    }
}

/// The ceiling of the base-2 logarithm of a positive number.
pub fn log2_ceil(n: usize) -> (k: usize)
    requires
        n > 0,
    ensures
        is_log2_ceil(n as nat, k as nat),
{
    let mut p: u128 = 1;
    let mut k: usize = 0;
    while p < n as u128
        invariant
            p == pow2(k as nat),
            k == 0 || pow2((k - 1) as nat) < n,
            1 <= p <= 2 * (n as u128),
            n <= usize::MAX,
        decreases 2 * (n as u128) - p,
    {
        proof {
            lemma_pow2_exceeds(k as nat);
        }
        p = p * 2;
        k = k + 1;
    }
    k
}

/// The number of bits to tell `n` things apart is one number.
pub proof fn lemma_log2_ceil_unique(n: nat, k: nat)
    requires
        is_log2_ceil(n, k),
    ensures
        forall|j: nat| is_log2_ceil(n, j) ==> j == k,
{
    assert forall|j: nat| is_log2_ceil(n, j) implies j == k by {
        if j < k {
            lemma_pow2_monotone(j, (k - 1) as nat);
        } else if j > k {
            lemma_pow2_monotone(k, (j - 1) as nat);
        }
    }
}

pub proof fn lemma_pow2_monotone(a: nat, b: nat)
    requires
        a <= b,
    ensures
        pow2(a) <= pow2(b),
    decreases b,
{
    if a < b {
        lemma_pow2_monotone(a, (b - 1) as nat);
    }
}

/// Every positive number has a rounded-up logarithm.
pub proof fn lemma_log2_ceil_exists(n: nat)
    requires
        n > 0,
    ensures
        exists|k: nat| is_log2_ceil(n, k),
    decreases n,
{
    if n == 1 {
        assert(is_log2_ceil(1, 0));
    } else {
        let m = ((n + 1) / 2) as nat;
        lemma_log2_ceil_exists(m);
        let k = choose|k: nat| is_log2_ceil(m, k);
        assert(is_log2_ceil(n, k + 1));
    }
}

/// The number of bits needed to tell `n` things apart.
pub open spec fn log2c(n: nat) -> nat {
    choose|k: nat| is_log2_ceil(n, k)
}

/// What `log2_ceil` computes is the number of bits needed.
pub proof fn lemma_log2c(n: nat, k: nat)
    requires
        is_log2_ceil(n, k),
    ensures
        log2c(n) == k,
{
    lemma_log2_ceil_unique(n, k);
}

} // verus!
