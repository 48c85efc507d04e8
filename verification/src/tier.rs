//! The sizes of a composition chain.
//!
//! A chain starts from a seed object and grows by a fixed factor per tier:
//! tier `n` is composed of `fan_in` copies of tier `n - 1`, so it holds the
//! seed's bytes `fan_in` to the power of `n` times.

use vstd::prelude::*;
use vstd::arithmetic::power::pow;

verus! {

/// The size of tier `n` of a chain that starts from `seed` bytes and grows
/// by the factor `fan_in` per tier. Tier zero is the seed itself.
pub open spec fn tier_size(seed: int, fan_in: int, n: nat) -> int
    decreases n,
{
    if n == 0 {
        seed
    } else {
        tier_size(seed, fan_in, (n - 1) as nat) * fan_in
    }
}

/// The number of the largest tier whose size does not exceed `limit`, for
/// a `limit` that is at least the seed's size.
pub open spec fn tier_depth(seed: int, fan_in: int, limit: int) -> nat
    decreases limit - seed,
{
    if seed > 0 && fan_in >= 2 && seed * fan_in <= limit {
        proof {
            assert(seed * fan_in > seed) by (nonlinear_arith)
                requires
                    seed > 0,
                    fan_in >= 2,
            ;
        }
        1 + tier_depth(seed * fan_in, fan_in, limit)
    } else {
        0
    }
}

/// Tier `n` holds the seed's size times the fan-in to the power of `n`.
pub proof fn lemma_tier_size_is_power(seed: int, fan_in: int, n: nat)
    ensures
        tier_size(seed, fan_in, n) == seed * pow(fan_in, n),
    decreases n,
{
    reveal(pow);
    if n > 0 {
        lemma_tier_size_is_power(seed, fan_in, (n - 1) as nat);
        let p = pow(fan_in, (n - 1) as nat);
        assert((seed * p) * fan_in == seed * (fan_in * p)) by (nonlinear_arith);
    }
}

/// A chain that starts one tier up is the same chain, one tier ahead.
pub proof fn lemma_tier_size_shift(seed: int, fan_in: int, n: nat)
    ensures
        tier_size(seed * fan_in, fan_in, n) == tier_size(seed, fan_in, n + 1),
    decreases n,
{
    if n > 0 {
        lemma_tier_size_shift(seed, fan_in, (n - 1) as nat);
        assert(tier_size(seed, fan_in, n + 1) == tier_size(seed, fan_in, n) * fan_in);
    } else {
        assert(tier_size(seed, fan_in, 0) == seed);
        assert(tier_size(seed, fan_in, 1) == tier_size(seed, fan_in, 0) * fan_in);
    }
}

/// Tier sizes grow strictly with the tier number.
pub proof fn lemma_tier_size_increases(seed: int, fan_in: int, n: nat, m: nat)
    requires
        seed > 0,
        fan_in >= 2,
        n < m,
    ensures
        0 < tier_size(seed, fan_in, n) < tier_size(seed, fan_in, m),
    decreases m,
{
    if m - 1 > n {
        lemma_tier_size_increases(seed, fan_in, n, (m - 1) as nat);
    } else {
        lemma_tier_size_positive(seed, fan_in, n);
    }
    let below = tier_size(seed, fan_in, (m - 1) as nat);
    assert(below * fan_in > below) by (nonlinear_arith)
        requires
            below > 0,
            fan_in >= 2,
    ;
}

/// Every tier of a chain with a non-empty seed is non-empty.
pub proof fn lemma_tier_size_positive(seed: int, fan_in: int, n: nat)
    requires
        seed > 0,
        fan_in >= 2,
    ensures
        tier_size(seed, fan_in, n) >= seed,
    decreases n,
{
    if n > 0 {
        lemma_tier_size_positive(seed, fan_in, (n - 1) as nat);
        let below = tier_size(seed, fan_in, (n - 1) as nat);
        assert(below * fan_in >= below) by (nonlinear_arith)
            requires
                below > 0,
                fan_in >= 2,
        ;
    }
}

/// The tier that `tier_depth` names is the nearest one at or below the
/// limit: it fits, and the next tier does not.
pub proof fn lemma_tier_depth_is_nearest(seed: int, fan_in: int, limit: int)
    requires
        seed > 0,
        fan_in >= 2,
        limit >= seed,
    ensures
        tier_size(seed, fan_in, tier_depth(seed, fan_in, limit)) <= limit,
        limit < tier_size(seed, fan_in, tier_depth(seed, fan_in, limit) + 1),
    decreases limit - seed,
{
    if seed * fan_in <= limit {
        assert(seed * fan_in > seed) by (nonlinear_arith)
            requires
                seed > 0,
                fan_in >= 2,
        ;
        lemma_tier_depth_is_nearest(seed * fan_in, fan_in, limit);
        let d = tier_depth(seed * fan_in, fan_in, limit);
        lemma_tier_size_shift(seed, fan_in, d);
        lemma_tier_size_shift(seed, fan_in, d + 1);
    } else {
        assert(tier_size(seed, fan_in, 1) == tier_size(seed, fan_in, 0) * fan_in);
    }
}

/// Only one tier is the nearest at or below a limit.
pub proof fn lemma_nearest_tier_is_unique(seed: int, fan_in: int, limit: int, n: nat)
    requires
        seed > 0,
        fan_in >= 2,
        tier_size(seed, fan_in, n) <= limit < tier_size(seed, fan_in, n + 1),
    ensures
        tier_depth(seed, fan_in, limit) == n,
{
    lemma_tier_size_positive(seed, fan_in, n);
    lemma_tier_depth_is_nearest(seed, fan_in, limit);
    let d = tier_depth(seed, fan_in, limit);
    if d < n {
        if d + 1 < n {
            lemma_tier_size_increases(seed, fan_in, d + 1, n);
        }
    } else if n < d {
        if n + 1 < d {
            lemma_tier_size_increases(seed, fan_in, n + 1, d);
        }
    }
}

/// A larger limit never has a lower nearest tier.
pub proof fn lemma_tier_depth_is_monotone(seed: int, fan_in: int, low: int, high: int)
    requires
        seed > 0,
        fan_in >= 2,
        seed <= low <= high,
    ensures
        tier_depth(seed, fan_in, low) <= tier_depth(seed, fan_in, high),
{
    lemma_tier_depth_is_nearest(seed, fan_in, low);
    lemma_tier_depth_is_nearest(seed, fan_in, high);
    let a = tier_depth(seed, fan_in, low);
    let b = tier_depth(seed, fan_in, high);
    if b < a {
        if b + 1 < a {
            lemma_tier_size_increases(seed, fan_in, b + 1, a);
        }
    }
}

} // verus!
