//! Levels: a player's level is a function of total experience alone.

use vstd::prelude::*;

verus! {

/// `r` is the integer square root of `n`: the largest `r` with `r * r <= n`.
pub open spec fn is_floor_sqrt(n: nat, r: nat) -> bool {
    r * r <= n < (r + 1) * (r + 1)
}

/// The integer square root of `n`.
pub closed spec fn floor_sqrt(n: nat) -> nat {
    choose|r: nat| is_floor_sqrt(n, r)
}

/// The level that goes with a total experience:
/// `floor(sqrt(total_xp / 100)) + 1`.
pub open spec fn level_of(total_xp: u64) -> u32 {
    (floor_sqrt((total_xp / 100) as nat) + 1) as u32
}

/// Every natural number has an integer square root.
proof fn lemma_floor_sqrt_exists(n: nat) -> (r: nat)
    ensures
        is_floor_sqrt(n, r),
    decreases n,
{
    if n == 0 {
        assert(is_floor_sqrt(0, 0)) by (nonlinear_arith);
        0
    } else {
        let p = lemma_floor_sqrt_exists((n - 1) as nat);
        let q = p + 1;
        if q * q <= n {
            assert(is_floor_sqrt(n, q)) by (nonlinear_arith)
                requires
                    q * q <= n,
                    n - 1 < q * q,
            ;
            q
        } else {
            assert(is_floor_sqrt(n, p)) by (nonlinear_arith)
                requires
                    p * p <= n - 1,
                    n < (p + 1) * (p + 1),
            ;
            p
        }
    }
}

/// The integer square root is the only number between whose square and
/// whose successor's square `n` lies.
pub proof fn lemma_floor_sqrt(n: nat)
    ensures
        is_floor_sqrt(n, floor_sqrt(n)),
        forall|r: nat| is_floor_sqrt(n, r) ==> r == floor_sqrt(n),
{
    let w = lemma_floor_sqrt_exists(n);
    let s = floor_sqrt(n);
    assert(is_floor_sqrt(n, s));
    assert forall|r: nat| is_floor_sqrt(n, r) implies r == s by {
        if r < s {
            assert((r + 1) * (r + 1) <= s * s) by (nonlinear_arith)
                requires
                    r + 1 <= s,
            ;
        } else if s < r {
            assert((s + 1) * (s + 1) <= r * r) by (nonlinear_arith)
                requires
                    s + 1 <= r,
            ;
        }
    }
}

/// The integer square root never decreases as its argument grows.
pub proof fn lemma_floor_sqrt_monotonic(a: nat, b: nat)
    requires
        a <= b,
    ensures
        floor_sqrt(a) <= floor_sqrt(b),
{
    lemma_floor_sqrt(a);
    lemma_floor_sqrt(b);
    let ra = floor_sqrt(a);
    let rb = floor_sqrt(b);
    if rb < ra {
        assert((rb + 1) * (rb + 1) <= ra * ra) by (nonlinear_arith)
            requires
                rb + 1 <= ra,
        ;
    }
}

/// The integer square root of a `u64` divided by 100 stays below
/// 429 496 730, so the level fits in a `u32` with room to spare.
pub proof fn lemma_level_bounds(total_xp: u64)
    ensures
        floor_sqrt((total_xp / 100) as nat) < 429_496_730,
        level_of(total_xp) == floor_sqrt((total_xp / 100) as nat) + 1,
        level_of(total_xp) >= 1,
{
    let n = (total_xp / 100) as nat;
    lemma_floor_sqrt(n);
    let r = floor_sqrt(n);
    if r >= 429_496_730 {
        assert(r * r >= 429_496_730 * 429_496_730) by (nonlinear_arith)
            requires
                r >= 429_496_730,
        ;
    }
}

/// The level never decreases as total experience grows.
pub proof fn lemma_level_monotonic(a: u64, b: u64)
    requires
        a <= b,
    ensures
        level_of(a) <= level_of(b),
{
    lemma_level_bounds(a);
    lemma_level_bounds(b);
    lemma_floor_sqrt_monotonic((a / 100) as nat, (b / 100) as nat);
}

/// The level for a total experience: `floor(sqrt(total_xp / 100)) + 1`,
/// computed in integers. The level is at least 1 and never decreases as the
/// experience grows.
pub fn calculate_level(total_xp: u64) -> (level: u32)
    ensures
        level == level_of(total_xp),
        level >= 1,
        (level - 1) * (level - 1) <= total_xp / 100 < level * level,
{
    let n: u64 = total_xp / 100;
    let mut lo: u64 = 0;
    let mut hi: u64 = 429_496_730;
    assert(n < 429_496_730 * 429_496_730);
    while hi - lo > 1
        invariant
            lo < hi <= 429_496_730,
            lo * lo <= n < hi * hi,
        decreases hi - lo,
    {
        let mid: u64 = lo + (hi - lo) / 2;
        assert(mid * mid < 429_496_730 * 429_496_730) by (nonlinear_arith)
            requires
                mid < 429_496_730,
        ;
        if mid * mid <= n {
            lo = mid;
        } else {
            hi = mid;
        }
    }
    proof {
        lemma_floor_sqrt(n as nat);
        assert(is_floor_sqrt(n as nat, lo as nat));
        lemma_level_bounds(total_xp);
    }
    (lo as u32).saturating_add(1)
}

} // verus!
