//! Fixed-point amounts and rates, and the two rounding operations the engine
//! is built from: growing an amount by a rate and saturating a balance.
use vstd::prelude::*;

verus! {

/// Number of amount units in one currency unit: amounts are millionths.
pub const UNITS_PER_CURRENCY: i64 = 1_000_000;

/// A rate of `RATE_ONE` is 100%: rates are parts per billion.
pub const RATE_ONE: u32 = 1_000_000_000;

/// Balances saturate at plus or minus this amount (one trillion currency units).
pub const AMOUNT_LIMIT: i64 = 1_000_000_000_000_000_000;

/// Magnitude bound on the amounts that [`grow`] accepts.
pub const GROW_INPUT_LIMIT: i128 = 100_000_000_000_000_000_000;

/// `x` saturated to the range `[-AMOUNT_LIMIT, AMOUNT_LIMIT]`.
pub open spec fn clamp(x: int) -> int {
    if x > AMOUNT_LIMIT {
        AMOUNT_LIMIT as int
    } else if x < -AMOUNT_LIMIT {
        -AMOUNT_LIMIT
    } else {
        x
    }
}

/// `x` multiplied by `1 + rate / RATE_ONE`, rounded toward zero.
pub open spec fn scale(x: int, rate: int) -> int {
    if x >= 0 {
        x * (RATE_ONE + rate) / (RATE_ONE as int)
    } else {
        -((-x) * (RATE_ONE + rate) / (RATE_ONE as int))
    }
}

/// Growing by a non-negative rate keeps the sign, never shrinks the magnitude,
/// and at most multiplies it by six (a `u32` rate is below 430%).
pub proof fn lemma_scale_bounds(x: int, rate: int)
    requires
        0 <= rate <= u32::MAX,
    ensures
        x >= 0 ==> x <= scale(x, rate) <= 6 * x,
        x < 0 ==> 6 * x <= scale(x, rate) <= x,
{
    let m = RATE_ONE + rate;
    let s = RATE_ONE as int;
    if x >= 0 {
        assert(x * s <= x * m <= x * (6 * s)) by (nonlinear_arith)
            requires
                x >= 0,
                s <= m <= 6 * s,
        ;
        lemma_div_between(x * m, x, 6 * x, s);
    } else {
        let y = -x;
        assert(y * s <= y * m <= y * (6 * s)) by (nonlinear_arith)
            requires
                y >= 0,
                s <= m <= 6 * s,
        ;
        lemma_div_between(y * m, y, 6 * y, s);
    }
}

/// `lo * s <= v <= hi * s` puts `v / s` between `lo` and `hi`.
proof fn lemma_div_between(v: int, lo: int, hi: int, s: int)
    requires
        s > 0,
        v >= lo * s,
        v <= hi * s,
    ensures
        lo <= v / s <= hi,
{
    assert(lo <= v / s <= hi) by (nonlinear_arith)
        requires
            s > 0,
            v >= lo * s,
            v <= hi * s,
    ;
}

/// Growing by a non-negative rate is monotone in the amount.
pub proof fn lemma_scale_monotone(x: int, y: int, rate: int)
    requires
        x <= y,
        0 <= rate <= u32::MAX,
    ensures
        scale(x, rate) <= scale(y, rate),
{
    let m = RATE_ONE + rate;
    let s = RATE_ONE as int;
    if 0 <= x {
        assert(x * m <= y * m) by (nonlinear_arith)
            requires
                0 <= x <= y,
                m >= 0,
        ;
        vstd::arithmetic::div_mod::lemma_div_is_ordered(x * m, y * m, s);
    } else if y < 0 {
        assert((-y) * m <= (-x) * m) by (nonlinear_arith)
            requires
                x <= y < 0,
                m >= 0,
        ;
        vstd::arithmetic::div_mod::lemma_div_is_ordered((-y) * m, (-x) * m, s);
    } else {
        lemma_scale_bounds(x, rate);
        lemma_scale_bounds(y, rate);
    }
}

/// Saturates `x` to `[-AMOUNT_LIMIT, AMOUNT_LIMIT]`.
pub fn clamp_amount(x: i128) -> (r: i64)
    ensures
        r == clamp(x as int),
{
    if x > AMOUNT_LIMIT as i128 {
        AMOUNT_LIMIT
    } else if x < -(AMOUNT_LIMIT as i128) {
        -AMOUNT_LIMIT
    } else {
        x as i64
    }
}

/// `x` grown by `rate`, rounded toward zero.
pub fn grow(x: i128, rate: u32) -> (r: i128)
    requires
        -GROW_INPUT_LIMIT <= x <= GROW_INPUT_LIMIT,
    ensures
        r == scale(x as int, rate as int),
{
    let m: i128 = RATE_ONE as i128 + rate as i128;
    if x >= 0 {
        assert(x * m <= GROW_INPUT_LIMIT * 6_000_000_000) by (nonlinear_arith)
            requires
                0 <= x <= GROW_INPUT_LIMIT,
                0 <= m <= 6_000_000_000,
        ;
        x * m / (RATE_ONE as i128)
    } else {
        let y: i128 = -x;
        assert(y * m <= GROW_INPUT_LIMIT * 6_000_000_000) by (nonlinear_arith)
            requires
                0 <= y <= GROW_INPUT_LIMIT,
                0 <= m <= 6_000_000_000,
        ;
        -(y * m / (RATE_ONE as i128))
    }
}

} // verus!
