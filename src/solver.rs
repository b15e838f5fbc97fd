//! The constant-payment solver: the balance a loan leaves after a number of
//! months at a given payment, and a bisection for the payment that leaves none.
use vstd::prelude::*;
use vstd::arithmetic::power2::{pow2, lemma2_to64, lemma_pow2_strictly_increases};
use crate::money::{clamp, scale, grow, clamp_amount, lemma_scale_bounds, lemma_scale_monotone, AMOUNT_LIMIT};

verus! {

/// Residual tolerance of the solver: one thousandth of a currency unit.
pub const ERR: i64 = 1000;

/// Iteration bound of the solver.
pub const MAX_ITERS: u32 = 10_000;

/// Upper end of the payment search interval: five million currency units.
pub const UPPER_BOUND: i64 = 5_000_000_000_000;

/// One month of a loan: interest accrues on a positive balance, then the
/// payment is subtracted; the result saturates.
pub open spec fn loan_month(left: int, payment: int, rate: int) -> int {
    clamp((if left > 0 { scale(left, rate) } else { left }) - payment)
}

/// What remains owed of `total` after `months` months of `payment`.
pub open spec fn residual(payment: int, total: int, rate: int, months: nat) -> int
    decreases months,
{
    if months == 0 {
        total
    } else {
        loan_month(residual(payment, total, rate, (months - 1) as nat), payment, rate)
    }
}

/// `payment` is an answer of the solver: it leaves less than `err` owed in
/// either direction, or it is the point where the residual crosses zero, the
/// largest payment that still leaves at least `err` owed while one unit more
/// overpays by at least `err` (or reaches the top of the search interval).
pub open spec fn payment_settles(
    total: int,
    rate: int,
    months: nat,
    err: int,
    upper: int,
    payment: int,
) -> bool {
    let res = residual(payment, total, rate, months);
    ||| -err < res < err
    ||| {
        &&& (payment == 0 || res >= err)
        &&& (upper <= payment + 1 || residual(payment + 1, total, rate, months) <= -err)
    }
}

/// `[a, b]` is a search interval of the solver: `a` underpays by at least
/// `err` unless it is the bottom of the search, and `b` overpays by at least
/// `err` unless it is the top.
pub open spec fn brackets(total: int, rate: int, months: nat, err: int, upper: int, a: int, b: int) -> bool {
    &&& 0 <= a <= b <= upper
    &&& (a == 0 || residual(a, total, rate, months) >= err)
    &&& (b == upper || residual(b, total, rate, months) <= -err)
}

/// The payment that bisection returns from the interval `[a, b]` with
/// `iters` halvings left: the midpoint, if its residual is within `err` of
/// zero or no halving is left; otherwise the answer from the lower half when
/// the midpoint overpays, or from the upper half when it underpays.
pub open spec fn bisect(total: int, rate: int, months: nat, err: int, a: int, b: int, iters: nat) -> int
    decreases iters,
{
    let c = a + (b - a) / 2;
    let res = residual(c, total, rate, months);
    if iters == 0 || -err < res < err {
        c
    } else if res > 0 {
        bisect(total, rate, months, err, c, b, (iters - 1) as nat)
    } else {
        bisect(total, rate, months, err, a, c, (iters - 1) as nat)
    }
}

/// The constant monthly payment for `total` over `months` months at `rate`,
/// as the solver finds it with the library's tolerance, bound and iteration
/// count.
pub open spec fn solved_payment(total: int, rate: int, months: nat) -> int {
    bisect(total, rate, months, ERR as int, 0, UPPER_BOUND as int, MAX_ITERS as nat)
}

/// One month keeps the order of balances, and a larger payment leaves less.
proof fn lemma_loan_month_monotone(l1: int, l2: int, p1: int, p2: int, rate: int)
    requires
        l1 <= l2,
        p2 <= p1,
        0 <= rate <= u32::MAX,
    ensures
        loan_month(l1, p1, rate) <= loan_month(l2, p2, rate),
{
    if l1 > 0 {
        lemma_scale_monotone(l1, l2, rate);
    } else if l2 > 0 {
        lemma_scale_bounds(l2, rate);
    }
}

/// The residual does not increase as the payment increases.
pub proof fn lemma_residual_monotone(p1: int, p2: int, total: int, rate: int, months: nat)
    requires
        p1 <= p2,
        0 <= rate <= u32::MAX,
    ensures
        residual(p2, total, rate, months) <= residual(p1, total, rate, months),
    decreases months,
{
    if months > 0 {
        let m = (months - 1) as nat;
        lemma_residual_monotone(p1, p2, total, rate, m);
        lemma_loan_month_monotone(
            residual(p2, total, rate, m),
            residual(p1, total, rate, m),
            p2,
            p1,
            rate,
        );
    }
}

/// Calculates how much is left to pay of `total` after `n_months` months of
/// `monthly_payment`, with `monthly_interest` charged on what is still owed.
///
/// A balance that is already paid off earns no interest; an overpayment shows
/// as a negative result.
pub fn calculate_left(monthly_payment: i64, total: i64, monthly_interest: u32, n_months: u32) -> (left: i64)
    ensures
        left == residual(monthly_payment as int, total as int, monthly_interest as int, n_months as nat),
{
    let mut left: i64 = total;
    let mut month: u32 = 0;
    while month < n_months
        invariant
            month <= n_months,
            left == residual(monthly_payment as int, total as int, monthly_interest as int, month as nat),
        decreases n_months - month,
    {
        let owed: i128 = if left > 0 {
            proof {
                lemma_scale_bounds(left as int, monthly_interest as int);
            }
            grow(left as i128, monthly_interest)
        } else {
            left as i128
        };
        left = clamp_amount(owed - monthly_payment as i128);
        month = month + 1;
    }
    left
}

/// Halving an interval of width `w >= 2` leaves at most `(w + 1) / 2`.
proof fn lemma_width_halves(w: int, w2: int, k: int, upper: int)
    requires
        w >= 2,
        w2 <= (w + 1) / 2,
        w2 >= 2,
        k >= 0,
        (w - 1) * k <= upper,
    ensures
        (w2 - 1) * (2 * k) <= upper,
{
    assert((w2 - 1) * (2 * k) <= (w - 1) * k) by (nonlinear_arith)
        requires
            2 * (w2 - 1) <= w - 1,
            k >= 0,
    ;
}

/// Calculates the constant monthly payment that repays `value` in `n_months`
/// months at `monthly_interest`, by bisection over `[0, upper_bound]`.
///
/// Stops at the first midpoint whose residual is within `err` of zero; after
/// `max_iters` halvings it returns the midpoint of the final interval, which
/// has shrunk to one unit once `max_iters` reaches 64.
pub fn calculate_monthly_payment_price_table(
    value: i64,
    monthly_interest: u32,
    n_months: u32,
    err: i64,
    max_iters: u32,
    upper_bound: i64,
) -> (payment: i64)
    requires
        0 < value <= AMOUNT_LIMIT,
        n_months > 0,
        upper_bound >= 0,
    ensures
        payment == bisect(
            value as int,
            monthly_interest as int,
            n_months as nat,
            err as int,
            0,
            upper_bound as int,
            max_iters as nat,
        ),
        0 <= payment <= upper_bound,
        ({
            let res = residual(payment as int, value as int, monthly_interest as int, n_months as nat);
            ||| -err < res < err
            ||| exists|a: int, b: int|
                #[trigger] brackets(
                    value as int,
                    monthly_interest as int,
                    n_months as nat,
                    err as int,
                    upper_bound as int,
                    a,
                    b,
                ) && payment == a + (b - a) / 2 && (b - a <= 1 || (b - a - 1) * pow2(max_iters as nat)
                    <= upper_bound)
        }),
        max_iters >= 64 ==> payment_settles(
            value as int,
            monthly_interest as int,
            n_months as nat,
            err as int,
            upper_bound as int,
            payment as int,
        ),
{
    let ghost rate = monthly_interest as int;
    let ghost months = n_months as nat;
    let mut a: i64 = 0;
    let mut b: i64 = upper_bound;
    let mut c: i64 = a + (b - a) / 2;
    let mut iter: u32 = 0;
    proof {
        lemma2_to64();
    }
    while iter < max_iters
        invariant
            brackets(value as int, rate, months, err as int, upper_bound as int, a as int, b as int),
            c == a + (b - a) / 2,
            iter <= max_iters,
            b - a <= 1 || (b - a - 1) * pow2(iter as nat) <= upper_bound,
            rate == monthly_interest,
            months == n_months,
            bisect(value as int, rate, months, err as int, a as int, b as int, (max_iters - iter) as nat)
                == bisect(value as int, rate, months, err as int, 0, upper_bound as int, max_iters as nat),
        decreases max_iters - iter,
    {
        let current_error: i64 = calculate_left(c, value, monthly_interest, n_months);
        if -(err as i128) < current_error as i128 && (current_error as i128) < err as i128 {
            return c;
        }
        let ghost w = b - a;
        if current_error > 0 {
            a = c;
        } else {
            b = c;
        }
        proof {
            vstd::arithmetic::power2::lemma_pow2_unfold((iter + 1) as nat);
            if b - a >= 2 {
                lemma_width_halves(w, b - a, pow2(iter as nat) as int, upper_bound as int);
            }
        }
        c = a + (b - a) / 2;
        iter = iter + 1;
    }
    proof {
        if max_iters >= 64 && b - a >= 2 {
            lemma2_to64();
            if iter > 64 {
                lemma_pow2_strictly_increases(64, iter as nat);
            }
            assert((b - a - 1) * pow2(iter as nat) >= pow2(iter as nat)) by (nonlinear_arith)
                requires
                    b - a - 1 >= 1,
                    pow2(iter as nat) >= 0,
            ;
        }
        if max_iters >= 64 && b == a && b != upper_bound {
            lemma_residual_monotone(a as int, a + 1, value as int, rate, months);
        }
    }
    c
}

/// With no interest, the residual is the principal less the payments made,
/// saturated below at `-AMOUNT_LIMIT`.
proof fn lemma_residual_zero_rate(payment: int, total: int, months: nat)
    requires
        0 <= payment,
        0 <= total <= AMOUNT_LIMIT,
    ensures
        residual(payment, total, 0, months) == clamp(total - months * payment),
    decreases months,
{
    if months > 0 {
        let m = (months - 1) as nat;
        lemma_residual_zero_rate(payment, total, m);
        let prev = residual(payment, total, 0, m);
        if prev > 0 {
            assert(prev * 1_000_000_000 / 1_000_000_000 == prev) by (nonlinear_arith);
        }
        assert(months * payment == m * payment + payment) by (nonlinear_arith)
            requires
                months == m + 1,
        ;
    } else {
        assert(months * payment == 0) by (nonlinear_arith)
            requires
                months == 0,
        ;
    }
}

/// With no interest, the solver's payment is the principal divided by the
/// term to within the tolerance: `|payment - total / months| < ERR` in
/// exact arithmetic.
pub proof fn lemma_zero_rate_payment(total: int, months: nat, payment: int)
    requires
        0 <= total <= AMOUNT_LIMIT,
        months > 0,
        total / (months as int) + 1 < UPPER_BOUND,
        0 <= payment,
        payment_settles(total, 0, months, ERR as int, UPPER_BOUND as int, payment),
    ensures
        -(ERR * months) < months * payment - total < ERR * months,
{
    let n = months as int;
    let q = total / n;
    let e = ERR as int;
    lemma_residual_zero_rate(payment, total, months);
    lemma_residual_zero_rate(payment + 1, total, months);
    vstd::arithmetic::div_mod::lemma_fundamental_div_mod(total, n);
    assert(n * (payment + 1) == n * payment + n) by (nonlinear_arith);
    assert(e <= e * n) by (nonlinear_arith)
        requires
            n >= 1,
            e >= 0,
    ;
    assert(n <= e * n) by (nonlinear_arith)
        requires
            n >= 1,
            e >= 1,
    ;
    let res = residual(payment, total, 0, months);
    if -e < res < e {
    } else if payment + 1 >= UPPER_BOUND {
        if payment == 0 {
            assert(false);
        } else {
            assert(n * payment > total) by (nonlinear_arith)
                requires
                    payment >= q + 1,
                    n > 0,
                    total == n * q + total % n,
                    total % n < n,
            ;
        }
    }
}

} // verus!
