//! Shard counts and binary logarithms.

use vstd::prelude::*;

verus! {

/// `2^k`.
pub open spec fn exp2(k: nat) -> nat
    decreases k,
{
    if k == 0 {
        1
    } else {
        2 * exp2((k - 1) as nat)
    }
}

/// `true` when `n` is a power of two.
pub open spec fn is_pow2(n: nat) -> bool {
    exists|k: nat| n == exp2(k)
}

/// The number of shards a template with `parallel_count` logical parts is proved
/// with: the parallel count rounded up to a power of two (see
/// `lemma_shard_count_is_least_pow2`).
pub open spec fn spec_shard_count(parallel_count: nat) -> nat
    decreases parallel_count,
{
    if parallel_count <= 1 {
        1
    } else {
        2 * spec_shard_count(((parallel_count + 1) / 2) as nat)
    }
}

/// `floor(log2(n))`, with `0` for `n <= 1`.
pub open spec fn log2_floor(n: nat) -> nat
    decreases n,
{
    if n <= 1 {
        0
    } else {
        1 + log2_floor(n / 2)
    }
}

proof fn lemma_exp2_even(k: nat)
    requires
        k >= 1,
    ensures
        exp2(k) % 2 == 0,
        exp2(k) >= 2,
    decreases k,
{
    if k > 1 {
        lemma_exp2_even((k - 1) as nat);
    } else {
        assert(exp2(0) == 1);
    }
}

/// `2^k` is positive.
pub proof fn lemma_exp2_pos(k: nat)
    ensures
        exp2(k) >= 1,
    decreases k,
{
    if k > 0 {
        lemma_exp2_pos((k - 1) as nat);
    }
}

/// `2^i` at least doubles up to `2^j` when `i < j`.
pub proof fn lemma_exp2_monotone(i: nat, j: nat)
    requires
        i < j,
    ensures
        2 * exp2(i) <= exp2(j),
    decreases j,
{
    if j > i + 1 {
        lemma_exp2_monotone(i, (j - 1) as nat);
    }
}

/// The shard count of `p >= 1` is the smallest power of two that is at least `p`:
/// it is a power of two, it lies in `[p, 2p)`, and no other power of two does.
pub proof fn lemma_shard_count_is_least_pow2(p: nat)
    requires
        p >= 1,
    ensures
        is_pow2(spec_shard_count(p)),
        p <= spec_shard_count(p) < 2 * p,
        forall|r: nat| is_pow2(r) && p <= r && r < 2 * p ==> r == spec_shard_count(p),
    decreases p,
{
    let s = spec_shard_count(p);
    if p == 1 {
        assert(s == exp2(0));
    } else {
        let q = ((p + 1) / 2) as nat;
        lemma_shard_count_is_least_pow2(q);
        let k = choose|k: nat| spec_shard_count(q) == exp2(k);
        assert(s == exp2(k + 1));
        if p % 2 == 1 {
            if k == 0 {
                assert(exp2(0) == 1);
            } else {
                lemma_exp2_even(k);
            }
        }
    }
    assert forall|r: nat| is_pow2(r) && p <= r && r < 2 * p implies r == s by {
        let i = choose|i: nat| r == exp2(i);
        let j = choose|j: nat| s == exp2(j);
        if i < j {
            lemma_exp2_monotone(i, j);
        } else if j < i {
            lemma_exp2_monotone(j, i);
        }
    }
}

/// Rounds a template's parallel count up to the power of two it is sharded into.
pub fn next_power_of_two(parallel_count: usize) -> (r: usize)
    requires
        1 <= parallel_count <= usize::MAX / 2,
    ensures
        r == spec_shard_count(parallel_count as nat),
        is_pow2(r as nat),
        parallel_count <= r < 2 * parallel_count,
    decreases parallel_count,
{
    proof {
        lemma_shard_count_is_least_pow2(parallel_count as nat);
    }
    if parallel_count <= 1 {
        1
    } else {
        let half = next_power_of_two(parallel_count / 2 + parallel_count % 2);
        assert((parallel_count / 2 + parallel_count % 2) as nat == ((parallel_count + 1) / 2) as nat);
        2 * half
    }
}

proof fn lemma_log2_floor_below(n: nat)
    requires
        n >= 1,
    ensures
        log2_floor(n) < n,
    decreases n,
{
    if n > 1 {
        lemma_log2_floor_below(n / 2);
    }
}

/// `floor(log2(n))` for `n >= 1`.
pub fn ilog2(n: usize) -> (r: usize)
    requires
        n >= 1,
    ensures
        r == log2_floor(n as nat),
    decreases n,
{
    if n <= 1 {
        0
    } else {
        let r = ilog2(n / 2);
        proof {
            lemma_log2_floor_below((n / 2) as nat);
        }
        1 + r
    }
}

proof fn lemma_pow2_double(m: nat)
    requires
        m >= 1,
    ensures
        is_pow2(2 * m) == is_pow2(m),
{
    if is_pow2(m) {
        let k = choose|k: nat| m == exp2(k);
        assert(2 * m == exp2(k + 1));
    }
    if is_pow2(2 * m) {
        let k = choose|k: nat| 2 * m == exp2(k);
        if k == 0 {
            assert(exp2(0) == 1);
        } else {
            assert(m == exp2((k - 1) as nat));
        }
    }
}

proof fn lemma_pow2_odd(m: nat)
    requires
        m % 2 == 1 || m == 0,
    ensures
        is_pow2(m) == (m == 1),
{
    if m == 1 {
        assert(m == exp2(0));
    }
    if is_pow2(m) {
        let k = choose|k: nat| m == exp2(k);
        if k >= 1 {
            lemma_exp2_even(k);
        } else {
            assert(exp2(0) == 1);
        }
    }
}

/// Whether `n` is a power of two.
pub fn is_power_of_two(n: usize) -> (r: bool)
    ensures
        r == is_pow2(n as nat),
{
    let mut m: usize = n;
    while m > 1 && m % 2 == 0
        invariant
            is_pow2(m as nat) == is_pow2(n as nat),
        decreases m,
    {
        proof {
            lemma_pow2_double((m / 2) as nat);
        }
        m = m / 2;
    }
    proof {
        if m > 1 || m == 0 {
            lemma_pow2_odd(m as nat);
        } else {
            assert(m == exp2(0));
        }
    }
    m == 1
}

/// The binary logarithm of a power of two is exact.
pub proof fn lemma_log2_of_pow2(n: nat)
    requires
        is_pow2(n),
    ensures
        exp2(log2_floor(n)) == n,
{
    let k = choose|k: nat| n == exp2(k);
    lemma_log2_exp2(k);
}

proof fn lemma_log2_exp2(k: nat)
    ensures
        log2_floor(exp2(k)) == k,
    decreases k,
{
    if k > 0 {
        lemma_log2_exp2((k - 1) as nat);
        lemma_exp2_pos((k - 1) as nat);
        assert(exp2(k) / 2 == exp2((k - 1) as nat));
    }
}

} // verus!
