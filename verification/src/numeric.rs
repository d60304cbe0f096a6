//! Fixed-point numeric helpers: the per-day temporal decay factor and an
//! integer square root.

use vstd::prelude::*;

use crate::CONF_SCALE;

verus! {

/// Fixed-point value of `exp(-0.1)`, the weight a record loses per day of
/// age under temporal decay.
pub const DECAY_FACTOR: u64 = 904_837;

/// The temporal-decay weight of a record `n` days old: `DECAY_FACTOR / CONF_SCALE`
/// raised to the `n`-th power in fixed-point arithmetic, so `CONF_SCALE`
/// (that is, 1.0) at age zero.
pub open spec fn pow_decay(n: int) -> int
    decreases n,
{
    if n <= 0 {
        CONF_SCALE as int
    } else {
        pow_decay(n - 1) * DECAY_FACTOR / (CONF_SCALE as int)
    }
}

/// Decay weights are valid fixed-point fractions.
pub proof fn lemma_pow_decay_range(n: int)
    ensures
        0 <= pow_decay(n) <= CONF_SCALE,
    decreases n,
{
    if n > 0 {
        lemma_pow_decay_range(n - 1);
        let w = pow_decay(n - 1);
        vstd::arithmetic::mul::lemma_mul_inequality(w, CONF_SCALE as int, DECAY_FACTOR as int);
        vstd::arithmetic::mul::lemma_mul_nonnegative(w, DECAY_FACTOR as int);
        vstd::arithmetic::div_mod::lemma_div_is_ordered(
            w * DECAY_FACTOR,
            (CONF_SCALE as int) * (DECAY_FACTOR as int),
            CONF_SCALE as int,
        );
        vstd::arithmetic::div_mod::lemma_div_multiples_vanish(
            DECAY_FACTOR as int,
            CONF_SCALE as int,
        );
        vstd::arithmetic::div_mod::lemma_div_pos_is_pos(w * DECAY_FACTOR, CONF_SCALE as int);
    }
}

/// Once the decay weight reaches zero it stays zero.
pub proof fn lemma_pow_decay_zero(n: int, m: int)
    requires
        pow_decay(n) == 0,
        n <= m,
    ensures
        pow_decay(m) == 0,
    decreases m - n,
{
    if n < m {
        lemma_pow_decay_zero(n, m - 1);
    }
}

/// Temporal-decay weight of a record aged `age_days` days.
pub fn decay_weight(age_days: u64) -> (w: u64)
    ensures
        w == pow_decay(age_days as int),
        w <= CONF_SCALE,
{
    let mut w: u64 = CONF_SCALE;
    let mut k: u64 = 0;
    while k < age_days && w > 0
        invariant
            k <= age_days,
            w == pow_decay(k as int),
            w <= CONF_SCALE,
        decreases age_days - k,
    {
        proof {
            lemma_pow_decay_range(k as int);
            vstd::arithmetic::mul::lemma_mul_inequality(
                w as int,
                CONF_SCALE as int,
                DECAY_FACTOR as int,
            );
        }
        w = (w * DECAY_FACTOR) / CONF_SCALE;
        k = k + 1;
        proof {
            lemma_pow_decay_range(k as int);
        }
    }
    proof {
        if w == 0 && k < age_days {
            lemma_pow_decay_zero(k as int, age_days as int);
        }
    }
    w
}

/// Largest value not above `b` whose square is at most `x`.
pub open spec fn sqrt_upto(x: int, b: int) -> int
    decreases b,
{
    if b <= 0 {
        0
    } else if b * b <= x {
        b
    } else {
        sqrt_upto(x, b - 1)
    }
}

/// Floor of the square root of a non-negative value.
pub open spec fn floor_sqrt(x: int) -> int {
    sqrt_upto(x, x)
}

proof fn lemma_sqrt_upto(x: int, b: int)
    requires
        x >= 0,
        b >= 0,
        (b + 1) * (b + 1) > x,
    ensures
        0 <= sqrt_upto(x, b) <= b,
        sqrt_upto(x, b) * sqrt_upto(x, b) <= x,
        (sqrt_upto(x, b) + 1) * (sqrt_upto(x, b) + 1) > x,
    decreases b,
{
    if b == 0 {
    } else if b * b <= x {
    } else {
        lemma_sqrt_upto(x, b - 1);
    }
}

/// The floor square root is exactly characterized by bracketing squares.
pub proof fn lemma_floor_sqrt(x: int, r: int)
    requires
        x >= 0,
        r >= 0,
        r * r <= x,
        (r + 1) * (r + 1) > x,
    ensures
        r == floor_sqrt(x),
{
    assert((x + 1) * (x + 1) > x) by (nonlinear_arith)
        requires
            x >= 0,
    ;
    lemma_sqrt_upto(x, x);
    let f = sqrt_upto(x, x);
    if r < f {
        assert((r + 1) * (r + 1) <= f * f) by (nonlinear_arith)
            requires
                0 <= r,
                r + 1 <= f,
        ;
    } else if f < r {
        assert((f + 1) * (f + 1) <= r * r) by (nonlinear_arith)
            requires
                0 <= f,
                f + 1 <= r,
        ;
    }
}

/// Integer square root: the greatest `r` with `r * r <= x`.
pub fn isqrt(x: u64) -> (r: u64)
    ensures
        r * r <= x,
        (r + 1) * (r + 1) > x,
        r == floor_sqrt(x as int),
{
    let mut lo: u64 = 0;
    let mut hi: u64 = 0x1_0000_0000;
    assert((hi as int) * (hi as int) > x as int) by (nonlinear_arith)
        requires
            hi == 0x1_0000_0000u64,
            x <= u64::MAX,
    ;
    while hi - lo > 1
        invariant
            lo < hi,
            hi <= 0x1_0000_0000u64,
            (lo as int) * (lo as int) <= x as int,
            (hi as int) * (hi as int) > x as int,
        decreases hi - lo,
    {
        let mid = lo + (hi - lo) / 2;
        assert((mid as int) * (mid as int) <= 0x1_0000_0000_0000_0000) by (nonlinear_arith)
            requires
                mid <= 0x1_0000_0000u64,
        ;
        if (mid as u128) * (mid as u128) <= x as u128 {
            lo = mid;
        } else {
            hi = mid;
        }
    }
    proof {
        lemma_floor_sqrt(x as int, lo as int);
    }
    lo
}

} // verus!
