//! The constant-amortization table: every month repays the same share of the
//! principal plus the interest on what is still owed, optionally shortened by
//! a lump sum paid at the end of each loan year.
use vstd::prelude::*;
use crate::money::{AMOUNT_LIMIT, RATE_ONE};

verus! {

/// Number of months in a year.
pub const MONTHS_PER_YEAR: u32 = 12;

/// The amounts of `v` as mathematical integers.
pub open spec fn as_ints(v: Seq<i64>) -> Seq<int> {
    v.map_values(|x: i64| x as int)
}

/// The sum of `s`.
pub open spec fn seq_sum(s: Seq<int>) -> int
    decreases s.len(),
{
    if s.len() == 0 {
        0
    } else {
        seq_sum(s.drop_last()) + s.last()
    }
}

/// Interest for one month on `balance`, rounded down.
pub open spec fn interest(balance: int, rate: int) -> int {
    balance * rate / (RATE_ONE as int)
}

/// The share of the principal `value` repaid in `month` of a `months`-month
/// table: `value / months` rounded down, the first month also repaying the
/// remainder of that division, so that the shares add up to `value`.
pub open spec fn sac_share(value: int, months: nat, month: nat) -> int {
    let base = value / (months as int);
    if month == 0 {
        base + value % (months as int)
    } else {
        base
    }
}

/// The loan ends after `month` (counted from zero) with `next` left owed: a
/// yearly lump sum has been repaid by then and nothing is owed any more. Only
/// a lump sum ends a table before its term; without one the shares run to
/// the last month.
pub open spec fn sac_ends(next: int, extra: int, month: nat) -> bool {
    next <= 0 && extra > 0 && month + 1 >= MONTHS_PER_YEAR
}

/// The payments from `month` on: each is the interest on `balance` plus the
/// month's share; after each twelfth month `extra` is repaid too, and the
/// table ends with the month after which the loan ends. The lump sums
/// shorten the table but are not themselves entries of it.
pub open spec fn sac_from(balance: int, value: int, rate: int, extra: int, month: nat, months: nat) -> Seq<int>
    decreases months - month,
{
    if month >= months {
        seq![]
    } else {
        let share = sac_share(value, months, month);
        let payment = interest(balance, rate) + share;
        let lump = if (month + 1) % (MONTHS_PER_YEAR as nat) == 0 { extra } else { 0 };
        let next = balance - share - lump;
        if sac_ends(next, extra, month) {
            seq![payment]
        } else {
            seq![payment] + sac_from(next, value, rate, extra, month + 1, months)
        }
    }
}

/// The constant-amortization table of `value` over `months` months.
pub open spec fn sac_table(value: int, rate: int, months: nat, extra: int) -> Seq<int> {
    sac_from(value, value, rate, extra, 0, months)
}

/// What is still owed at the start of `month` when no lump sum is paid: the
/// principal, then after the first month `months - month` equal shares.
pub open spec fn sac_owed(value: int, months: nat, month: nat) -> int {
    if month == 0 {
        value
    } else {
        (months - month) * (value / (months as int))
    }
}

/// The shares of the first `k` months added up.
pub open spec fn shares_paid(value: int, months: nat, k: nat) -> int
    decreases k,
{
    if k == 0 {
        0
    } else {
        shares_paid(value, months, (k - 1) as nat) + sac_share(value, months, (k - 1) as nat)
    }
}

/// The interest of the first `k` months added up, when no lump sum is paid.
pub open spec fn interest_paid(value: int, rate: int, months: nat, k: nat) -> int
    decreases k,
{
    if k == 0 {
        0
    } else {
        interest_paid(value, rate, months, (k - 1) as nat) + interest(
            sac_owed(value, months, (k - 1) as nat),
            rate,
        )
    }
}

/// Bounds the interest on a balance of at most `AMOUNT_LIMIT`.
proof fn lemma_interest_bound(balance: int, rate: int)
    requires
        0 <= balance <= AMOUNT_LIMIT,
        0 <= rate <= u32::MAX,
    ensures
        0 <= interest(balance, rate) <= 5 * AMOUNT_LIMIT,
{
    let s = RATE_ONE as int;
    assert(0 <= balance * rate <= (5 * AMOUNT_LIMIT) * s) by (nonlinear_arith)
        requires
            0 <= balance <= AMOUNT_LIMIT,
            0 <= rate <= u32::MAX,
            s == 1_000_000_000,
    ;
    assert(0 <= balance * rate / s <= 5 * AMOUNT_LIMIT) by (nonlinear_arith)
        requires
            0 <= balance * rate <= (5 * AMOUNT_LIMIT) * s,
            s == 1_000_000_000,
    ;
}

/// The rounded-down share and the remainder of `value` over `months` months.
proof fn lemma_share_parts(value: int, months: nat)
    requires
        value > 0,
        months > 0,
    ensures
        0 <= value / (months as int) <= value,
        0 <= value % (months as int) < months,
        value == (months as int) * (value / (months as int)) + value % (months as int),
        value / (months as int) <= sac_share(value, months, 0) <= value,
        value >= months ==> value / (months as int) >= 1,
{
    let n = months as int;
    vstd::arithmetic::div_mod::lemma_fundamental_div_mod(value, n);
    assert(0 <= value / n <= value && (value >= n ==> value / n >= 1)) by (nonlinear_arith)
        requires
            value > 0,
            n > 0,
            value == n * (value / n) + value % n,
            0 <= value % n < n,
    ;
    assert(n * (value / n) >= value / n) by (nonlinear_arith)
        requires
            n >= 1,
            value / n >= 0,
    ;
}

/// Calculates the constant-amortization payments that repay `value` over
/// `n_months` months at `monthly_interest`, with `yearly_extra_amortization`
/// repaid as a lump sum at the end of each loan year.
///
/// Each payment is the interest on the outstanding balance plus the month's
/// share of `value`; only a lump sum that repays the balance ends the table
/// before the term.
pub fn calculate_monthly_payments_sac_table(
    value: i64,
    monthly_interest: u32,
    n_months: u32,
    yearly_extra_amortization: i64,
) -> (payments: Vec<i64>)
    requires
        0 < value <= AMOUNT_LIMIT,
        n_months > 0,
        0 <= yearly_extra_amortization <= AMOUNT_LIMIT,
    ensures
        as_ints(payments@) == sac_table(
            value as int,
            monthly_interest as int,
            n_months as nat,
            yearly_extra_amortization as int,
        ),
        1 <= payments@.len() <= n_months,
        yearly_extra_amortization == 0 ==> payments@.len() == n_months,
{
    proof {
        lemma_sac_len(value as int, monthly_interest as int, n_months as nat, yearly_extra_amortization as int);
        if yearly_extra_amortization == 0 {
            lemma_sac_without_extra(value as int, monthly_interest as int, n_months as nat);
        }
    }
    let ghost rate = monthly_interest as int;
    let ghost extra = yearly_extra_amortization as int;
    let ghost table = sac_table(value as int, rate, n_months as nat, extra);
    proof {
        lemma_share_parts(value as int, n_months as nat);
    }
    let base: i64 = value / (n_months as i64);
    let first_share: i64 = base + value % (n_months as i64);
    let mut balance: i64 = value;
    let mut month: u32 = 0;
    let mut payments: Vec<i64> = Vec::new();
    assert(as_ints(payments@) =~= seq![]);
    while month < n_months
        invariant_except_break
            0 <= balance <= value,
            month <= n_months,
            extra == 0 || month < MONTHS_PER_YEAR ==> balance == sac_owed(
                value as int,
                n_months as nat,
                month as nat,
            ),
            as_ints(payments@) + sac_from(balance as int, value as int, rate, extra, month as nat, n_months as nat)
                == table,
        invariant
            0 < value <= AMOUNT_LIMIT,
            0 <= base <= first_share <= value,
            base == value / (n_months as i64),
            first_share == sac_share(value as int, n_months as nat, 0),
            0 <= extra <= AMOUNT_LIMIT,
            rate == monthly_interest,
            extra == yearly_extra_amortization,
            table == sac_table(value as int, rate, n_months as nat, extra),
        ensures
            as_ints(payments@) == table,
        decreases n_months - month,
    {
        proof {
            lemma_interest_bound(balance as int, rate);
        }
        let share: i64 = if month == 0 {
            first_share
        } else {
            base
        };
        let interest_due: i64 = ((balance as i128 * monthly_interest as i128) / (RATE_ONE as i128)) as i64;
        let payment: i64 = interest_due + share;
        let ghost before = payments@;
        payments.push(payment);
        proof {
            if extra == 0 || month < MONTHS_PER_YEAR {
                lemma_owed_step(value as int, n_months as nat, month as nat);
            }
        }
        let mut next: i64 = balance - share;
        let ghost current = month;
        month = month + 1;
        if month % MONTHS_PER_YEAR == 0 {
            next = next - yearly_extra_amortization;
        }
        let ghost rest = sac_from(next as int, value as int, rate, extra, month as nat, n_months as nat);
        assert(as_ints(payments@) =~= as_ints(before).push(payment as int));
        if next <= 0 && yearly_extra_amortization > 0 && month >= MONTHS_PER_YEAR {
            assert(sac_ends(next as int, extra, current as nat));
            assert(as_ints(before) + seq![payment as int] =~= as_ints(payments@));
            break;
        }
        assert(as_ints(before) + (seq![payment as int] + rest) =~= as_ints(payments@) + rest);
        assert(next >= 0);
        balance = next;
    }
    proof {
        if month >= n_months {
            assert(as_ints(payments@) + seq![] =~= as_ints(payments@));
        }
    }
    payments
}

/// A table from `month` on holds at least one payment and never runs past
/// the term.
proof fn lemma_sac_from_len(balance: int, value: int, rate: int, extra: int, month: nat, months: nat)
    requires
        month < months,
    ensures
        1 <= sac_from(balance, value, rate, extra, month, months).len() <= months - month,
    decreases months - month,
{
    let share = sac_share(value, months, month);
    let lump = if (month + 1) % (MONTHS_PER_YEAR as nat) == 0 { extra } else { 0 };
    let next = balance - share - lump;
    if !sac_ends(next, extra, month) {
        if month + 1 < months {
            lemma_sac_from_len(next, value, rate, extra, month + 1, months);
        } else {
            assert(sac_from(next, value, rate, extra, month + 1, months).len() == 0);
        }
    }
}

/// The constant-amortization table holds at least one payment and at most
/// one per month of the term.
pub proof fn lemma_sac_len(value: int, rate: int, months: nat, extra: int)
    requires
        months > 0,
    ensures
        1 <= sac_table(value, rate, months, extra).len() <= months,
{
    lemma_sac_from_len(value, value, rate, extra, 0, months);
}

/// Repaying a month's share leaves what is owed at the start of the next
/// month; nothing is owed after the last month, and something is owed before
/// it once every share is at least one unit.
proof fn lemma_owed_step(value: int, months: nat, month: nat)
    requires
        value > 0,
        month < months,
    ensures
        sac_owed(value, months, month) - sac_share(value, months, month) == sac_owed(value, months, month + 1),
        sac_owed(value, months, month + 1) >= 0,
        month + 1 == months ==> sac_owed(value, months, month + 1) == 0,
        value >= months && month + 1 < months ==> sac_owed(value, months, month + 1) > 0,
{
    let n = months as int;
    let m = month as int;
    let base = value / n;
    lemma_share_parts(value, months);
    assert((n - m - 1) * base == (n - m) * base - base) by (nonlinear_arith);
    assert(n * base - base == (n - 1) * base) by (nonlinear_arith);
    assert((n - m - 1) * base >= 0) by (nonlinear_arith)
        requires
            m < n,
            base >= 0,
    ;
    if value >= months && month + 1 < months {
        assert((n - m - 1) * base > 0) by (nonlinear_arith)
            requires
                m + 1 < n,
                base >= 1,
        ;
    }
    if month + 1 == months {
        assert((n - m - 1) * base == 0) by (nonlinear_arith)
            requires
                m + 1 == n,
        ;
    }
}

/// Without lump sums, the table from `month` on runs to the last month, and
/// the payment of each month is the interest on what is owed then plus the
/// month's share.
proof fn lemma_sac_from_plain(value: int, rate: int, month: nat, months: nat)
    requires
        value > 0,
        months > 0,
        month <= months,
    ensures
        sac_from(sac_owed(value, months, month), value, rate, 0, month, months).len() == months - month,
        forall|k: int|
            0 <= k < months - month ==> #[trigger] sac_from(sac_owed(value, months, month), value, rate, 0, month, months)[k]
                == interest(sac_owed(value, months, (month + k) as nat), rate) + sac_share(
                value,
                months,
                (month + k) as nat,
            ),
    decreases months - month,
{
    if month < months {
        lemma_owed_step(value, months, month);
        let s = sac_from(sac_owed(value, months, month), value, rate, 0, month, months);
        if month + 1 < months {
            lemma_sac_from_plain(value, rate, month + 1, months);
            let rest = sac_from(sac_owed(value, months, month + 1), value, rate, 0, month + 1, months);
            assert forall|k: int| 0 <= k < months - month implies #[trigger] s[k] == interest(
                sac_owed(value, months, (month + k) as nat),
                rate,
            ) + sac_share(value, months, (month + k) as nat) by {
                if k > 0 {
                    assert(s[k] == rest[k - 1]);
                    assert((month + 1 + (k - 1)) as nat == (month + k) as nat);
                }
            }
        } else {
            assert(sac_from(sac_owed(value, months, month + 1), value, rate, 0, month + 1, months).len() == 0);
        }
    }
}

/// The shares of the first `k` months repay what is no longer owed.
proof fn lemma_shares_paid(value: int, months: nat, k: nat)
    requires
        value > 0,
        k <= months,
    ensures
        shares_paid(value, months, k) == value - sac_owed(value, months, k),
    decreases k,
{
    if k > 0 {
        lemma_shares_paid(value, months, (k - 1) as nat);
        lemma_owed_step(value, months, (k - 1) as nat);
    }
}

/// Without extra amortization the constant-amortization table has one payment
/// per month of the term; each is
/// the interest on what is still owed plus the month's share, and the shares
/// add up to exactly `value`.
pub proof fn lemma_sac_without_extra(value: int, rate: int, months: nat)
    requires
        value > 0,
        months > 0,
    ensures
        sac_table(value, rate, months, 0).len() == months,
        forall|k: int|
            0 <= k < months ==> #[trigger] sac_table(value, rate, months, 0)[k] == interest(
                sac_owed(value, months, k as nat),
                rate,
            ) + sac_share(value, months, k as nat),
        shares_paid(value, months, months) == value,
{
    lemma_sac_from_plain(value, rate, 0, months);
    lemma_shares_paid(value, months, months);
    lemma_owed_step(value, months, (months - 1) as nat);
}

/// The first `k` payments of a table whose payments are the interest on what
/// is owed plus the share add up to those shares plus that interest.
proof fn lemma_prefix_sum(t: Seq<int>, value: int, rate: int, months: nat, k: nat)
    requires
        k <= t.len() == months,
        forall|j: int|
            0 <= j < months ==> #[trigger] t[j] == interest(sac_owed(value, months, j as nat), rate) + sac_share(
                value,
                months,
                j as nat,
            ),
    ensures
        seq_sum(t.take(k as int)) == shares_paid(value, months, k) + interest_paid(value, rate, months, k),
    decreases k,
{
    if k > 0 {
        lemma_prefix_sum(t, value, rate, months, (k - 1) as nat);
        assert(t.take(k as int).drop_last() =~= t.take(k - 1));
        assert(t.take(k as int).last() == t[k - 1]);
    } else {
        assert(t.take(0) =~= seq![]);
    }
}

/// Without extra amortization the payments add up to the principal plus the interest on what is owed at the
/// start of each month.
pub proof fn lemma_sac_total_paid(value: int, rate: int, months: nat)
    requires
        value > 0,
        months > 0,
    ensures
        seq_sum(sac_table(value, rate, months, 0)) == value + interest_paid(value, rate, months, months),
{
    let t = sac_table(value, rate, months, 0);
    lemma_sac_without_extra(value, rate, months);
    lemma_prefix_sum(t, value, rate, months, months);
    assert(t.take(months as int) =~= t);
}

/// Interest is monotone in the balance; a drop in balance whose interest is
/// one unit or more lowers it strictly.
proof fn lemma_interest_order(b1: int, b2: int, rate: int)
    requires
        0 <= b2 <= b1,
        rate >= 0,
    ensures
        interest(b2, rate) <= interest(b1, rate),
        (b1 - b2) * rate >= RATE_ONE ==> interest(b2, rate) < interest(b1, rate),
{
    let s = RATE_ONE as int;
    assert(b2 * rate <= b1 * rate) by (nonlinear_arith)
        requires
            0 <= b2 <= b1,
            rate >= 0,
    ;
    vstd::arithmetic::div_mod::lemma_div_is_ordered(b2 * rate, b1 * rate, s);
    if (b1 - b2) * rate >= s {
        assert(b2 * rate + s <= b1 * rate) by (nonlinear_arith)
            requires
                (b1 - b2) * rate >= s,
        ;
        vstd::arithmetic::div_mod::lemma_div_plus_one(b2 * rate, s);
        vstd::arithmetic::div_mod::lemma_div_is_ordered(b2 * rate + s, b1 * rate, s);
    }
}

/// From `month` on, each payment is at most the one before, and strictly
/// less once the interest on one share is one unit or more.
proof fn lemma_sac_from_decreasing(balance: int, value: int, rate: int, extra: int, month: nat, months: nat)
    requires
        balance >= 0,
        extra == 0 || month < MONTHS_PER_YEAR ==> balance == sac_owed(value, months, month),
        value > 0,
        months > 0,
        rate >= 0,
        extra >= 0,
    ensures
        forall|k: int|
            0 <= k && k + 1 < sac_from(balance, value, rate, extra, month, months).len() ==> sac_from(
                balance,
                value,
                rate,
                extra,
                month,
                months,
            )[k + 1] <= #[trigger] sac_from(balance, value, rate, extra, month, months)[k] && ((value / (
            months as int)) * rate >= RATE_ONE ==> sac_from(balance, value, rate, extra, month, months)[k + 1]
                < sac_from(balance, value, rate, extra, month, months)[k]),
    decreases months - month,
{
    let s = sac_from(balance, value, rate, extra, month, months);
    if month < months {
        let base = value / (months as int);
        let share = sac_share(value, months, month);
        let lump = if (month + 1) % (MONTHS_PER_YEAR as nat) == 0 { extra } else { 0 };
        let next = balance - share - lump;
        lemma_share_parts(value, months);
        lemma_owed_step(value, months, month);
        if !sac_ends(next, extra, month) && month + 1 < months {
            let rest = sac_from(next, value, rate, extra, month + 1, months);
            lemma_sac_from_decreasing(next, value, rate, extra, month + 1, months);
            lemma_sac_from_len(next, value, rate, extra, month + 1, months);
            lemma_interest_order(balance, next, rate);
            assert((balance - next) * rate >= base * rate) by (nonlinear_arith)
                requires
                    balance - next >= base,
                    rate >= 0,
            ;
            assert(s[1] == rest[0]);
            assert forall|k: int| 0 <= k && k + 1 < s.len() implies s[k + 1] <= #[trigger] s[k] && (base * rate >= RATE_ONE
                ==> s[k + 1] < s[k]) by {
                if k > 0 {
                    assert(s[k] == rest[k - 1]);
                    assert(s[k + 1] == rest[k]);
                }
            }
        }
    }
}

/// The payments never increase, with or without lump sums, and they strictly
/// decrease once the interest on one month's share is one unit (a millionth of
/// a currency unit) or more.
pub proof fn lemma_sac_decreasing(value: int, rate: int, months: nat, extra: int)
    requires
        value > 0,
        months > 0,
        rate >= 0,
        extra >= 0,
    ensures
        forall|k: int|
            0 <= k && k + 1 < sac_table(value, rate, months, extra).len() ==> sac_table(value, rate, months, extra)[k
                + 1] <= #[trigger] sac_table(value, rate, months, extra)[k],
        (value / (months as int)) * rate >= RATE_ONE ==> forall|k: int|
            0 <= k && k + 1 < sac_table(value, rate, months, extra).len() ==> sac_table(value, rate, months, extra)[k
                + 1] < #[trigger] sac_table(value, rate, months, extra)[k],
{
    lemma_sac_from_decreasing(value, value, rate, extra, 0, months);
}

/// Within the first loan year, with a term longer than a year and a lump sum
/// that covers what is owed after it, the table from `month` on ends with the
/// twelfth month.
proof fn lemma_sac_from_first_year(value: int, rate: int, extra: int, month: nat, months: nat)
    requires
        value > 0,
        month < 12 < months,
        extra > 0,
        extra >= sac_owed(value, months, 12),
    ensures
        sac_from(sac_owed(value, months, month), value, rate, extra, month, months).len() == 12 - month,
    decreases 12 - month,
{
    lemma_owed_step(value, months, month);
    if month < 11 {
        lemma_sac_from_first_year(value, rate, extra, month + 1, months);
    }
}

/// With a term longer than a year and a positive yearly extra amortization
/// that covers what is still owed after the first year, the table ends with
/// the twelfth payment, before the nominal term.
pub proof fn lemma_sac_early_payoff(value: int, rate: int, months: nat, extra: int)
    requires
        value > 0,
        months > 12,
        extra > 0,
        extra >= sac_owed(value, months, 12),
    ensures
        sac_table(value, rate, months, extra).len() == 12,
        sac_table(value, rate, months, extra).len() < months,
{
    lemma_sac_from_first_year(value, rate, extra, 0, months);
}

} // verus!
