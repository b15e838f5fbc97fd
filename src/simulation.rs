//! The cash-flow simulation: the payment table of the chosen strategy, then
//! month by month the payment, the expenses, investment growth, income and the
//! yearly bonus applied to the household's balance.
use vstd::prelude::*;
use crate::amortization::{
    as_ints, calculate_monthly_payments_sac_table, lemma_sac_early_payoff, lemma_sac_len, sac_owed, sac_table,
    MONTHS_PER_YEAR,
};
use crate::model::{lemma_valid_house, house_valid, inputs_valid, principal, within_limit, Buyer, House, Simulation};
use crate::money::{clamp, clamp_amount, grow, lemma_scale_bounds, scale, AMOUNT_LIMIT};
use crate::solver::{
    calculate_monthly_payment_price_table, payment_settles, solved_payment, ERR, MAX_ITERS, UPPER_BOUND,
};

verus! {

/// How the loan is repaid.
#[derive(Clone, Copy, Debug, PartialEq, Eq, Structural)]
pub enum AmortizationStrategy {
    /// Constant amortization: the same share of the principal every month,
    /// so the payments decrease.
    Sac,
    /// Constant payment: the same payment every month, found by the solver.
    Price,
}

impl Default for AmortizationStrategy {
    fn default() -> (s: Self)
        ensures
            s == AmortizationStrategy::Sac,
    {
        AmortizationStrategy::Sac
    }
}

/// The result of a simulation.
#[derive(Debug)]
pub struct SimulationOutput {
    /// The balance after the down payment, then after each forecast month.
    pub time_series: Vec<i64>,
    /// The loan payment charged in each month of the loan.
    pub monthly_payments: Vec<i64>,
    /// Number of months after which the loan is repaid.
    pub ends_after: u32,
}

/// `table` is the constant-payment table of `house`: one payment per month of
/// the term, each the payment the solver finds for the amount borrowed.
pub open spec fn price_table_ok(house: House, table: Seq<int>) -> bool {
    &&& table.len() == house.months_to_pay
    &&& forall|i: int|
        0 <= i < table.len() ==> #[trigger] table[i] == solved_payment(
            principal(house),
            house.house_monthly_interest as int,
            house.months_to_pay as nat,
        )
    &&& 0 <= table[0] <= UPPER_BOUND
    &&& payment_settles(
        principal(house),
        house.house_monthly_interest as int,
        house.months_to_pay as nat,
        ERR as int,
        UPPER_BOUND as int,
        table[0],
    )
}

/// `table` is the payment table of `house` under `strategy`.
pub open spec fn payment_table_ok(house: House, strategy: AmortizationStrategy, table: Seq<int>) -> bool {
    match strategy {
        AmortizationStrategy::Price => price_table_ok(house, table),
        AmortizationStrategy::Sac => table == sac_table(
            principal(house),
            house.house_monthly_interest as int,
            house.months_to_pay as nat,
            house.yearly_extra_amortization as int,
        ),
    }
}

/// Builds the table of monthly loan payments of `house` under `strategy`.
pub fn monthly_payment_table(house: &House, strategy: AmortizationStrategy) -> (payments: Vec<i64>)
    requires
        house_valid(*house),
    ensures
        payment_table_ok(*house, strategy, as_ints(payments@)),
        1 <= payments@.len() <= house.months_to_pay,
        strategy == AmortizationStrategy::Price || house.yearly_extra_amortization == 0 ==> payments@.len()
            == house.months_to_pay,
{
    let borrowed: i64 = house.house_price - house.down_payment;
    match strategy {
        AmortizationStrategy::Price => {
            let payment: i64 = calculate_monthly_payment_price_table(
                borrowed,
                house.house_monthly_interest,
                house.months_to_pay,
                ERR,
                MAX_ITERS,
                UPPER_BOUND,
            );
            let mut payments: Vec<i64> = Vec::new();
            let mut month: u32 = 0;
            while month < house.months_to_pay
                invariant
                    month <= house.months_to_pay,
                    payments@.len() == month,
                    forall|i: int| 0 <= i < month ==> #[trigger] payments@[i] == payment,
                decreases house.months_to_pay - month,
            {
                payments.push(payment);
                month = month + 1;
            }
            assert(as_ints(payments@)[0] == payment);
            payments
        },
        AmortizationStrategy::Sac => {
            proof {
                lemma_sac_len(
                    borrowed as int,
                    house.house_monthly_interest as int,
                    house.months_to_pay as nat,
                    house.yearly_extra_amortization as int,
                );
            }
            calculate_monthly_payments_sac_table(
                borrowed,
                house.house_monthly_interest,
                house.months_to_pay,
                house.yearly_extra_amortization,
            )
        },
    }
}

/// The loan payment charged in `month`: nothing once the table has ended.
pub open spec fn payment_in_month(payments: Seq<int>, month: int) -> int {
    if month < payments.len() {
        payments[month]
    } else {
        0
    }
}

/// The monthly expenses in year `year` of the forecast: `fixed` grown once by
/// `inflation` at the start of each year after the first, saturating.
pub open spec fn expenses_in_year(fixed: int, inflation: int, year: nat) -> int
    decreases year,
{
    if year == 0 {
        fixed
    } else {
        clamp(scale(expenses_in_year(fixed, inflation, (year - 1) as nat), inflation))
    }
}

/// `month` closes a year of the forecast (months 12, 24, ...).
pub open spec fn is_end_of_year(month: int) -> bool {
    month % (MONTHS_PER_YEAR as int) == 0 && month > 0
}

/// The balance after forecast month `month`: the loan payment and the expenses
/// are subtracted first, then what remains grows at the investment rate (a
/// negative balance shrinks further), then income and, at the end of a year,
/// the bonus are added; the result saturates.
pub open spec fn next_balance(balance: int, month: nat, payments: Seq<int>, buyer: Buyer, inflation: int) -> int {
    let owed = balance - payment_in_month(payments, month as int) - expenses_in_year(
        buyer.fixed_monthly_expenses as int,
        inflation,
        month / (MONTHS_PER_YEAR as nat),
    );
    let bonus = if is_end_of_year(month as int) { buyer.yearly_bonus as int } else { 0 };
    clamp(scale(owed, buyer.investment_monthly_interest as int) + buyer.liquid_salary + bonus)
}

/// The balances from `start` (saturated) through `months` forecast months.
pub open spec fn balance_series(start: int, payments: Seq<int>, buyer: Buyer, inflation: int, months: nat) -> Seq<
    int,
>
    decreases months,
{
    if months == 0 {
        seq![clamp(start)]
    } else {
        let before = balance_series(start, payments, buyer, inflation, (months - 1) as nat);
        before.push(next_balance(before.last(), (months - 1) as nat, payments, buyer, inflation))
    }
}

/// The balance series holds one balance more than the months simulated.
pub proof fn lemma_balance_series_len(start: int, payments: Seq<int>, buyer: Buyer, inflation: int, months: nat)
    ensures
        balance_series(start, payments, buyer, inflation, months).len() == months + 1,
    decreases months,
{
    if months > 0 {
        lemma_balance_series_len(start, payments, buyer, inflation, (months - 1) as nat);
    }
}

/// Simulates the household's balance over the forecast window while the loan
/// of `house` is repaid under `amortization_strategy`.
pub fn calculate_money_timeseries_after_months(
    buyer: &Buyer,
    house: &House,
    simulation: &Simulation,
    amortization_strategy: AmortizationStrategy,
) -> (output: SimulationOutput)
    requires
        inputs_valid(*buyer, *house, *simulation),
    ensures
        payment_table_ok(*house, amortization_strategy, as_ints(output.monthly_payments@)),
        output.ends_after == output.monthly_payments@.len(),
        output.ends_after <= house.months_to_pay,
        amortization_strategy == AmortizationStrategy::Price || house.yearly_extra_amortization == 0
            ==> output.ends_after == house.months_to_pay,
        output.time_series@.len() == simulation.months_to_forecast + 1,
        as_ints(output.time_series@) == balance_series(
            buyer.starting_money - house.down_payment,
            as_ints(output.monthly_payments@),
            *buyer,
            simulation.inflation as int,
            simulation.months_to_forecast as nat,
        ),
{
    proof {
        lemma_valid_house(*buyer, *house, *simulation);
    }
    let ghost start = buyer.starting_money - house.down_payment;
    let ghost inflation = simulation.inflation as int;
    let monthly_payments = monthly_payment_table(house, amortization_strategy);
    let ghost payments = as_ints(monthly_payments@);
    let mut time_series: Vec<i64> = Vec::new();
    let mut money_left: i64 = clamp_amount(buyer.starting_money as i128 - house.down_payment as i128);
    time_series.push(money_left);
    assert(as_ints(time_series@) =~= balance_series(start, payments, *buyer, inflation, 0));
    let mut expenses: i64 = buyer.fixed_monthly_expenses;
    let mut month: u32 = 0;
    while month < simulation.months_to_forecast
        invariant
            month <= simulation.months_to_forecast,
            -AMOUNT_LIMIT <= money_left <= AMOUNT_LIMIT,
            -AMOUNT_LIMIT <= expenses <= AMOUNT_LIMIT,
            time_series@.len() == month + 1,
            money_left == time_series@[month as int],
            as_ints(time_series@) == balance_series(start, payments, *buyer, inflation, month as nat),
            expenses == expenses_in_year(
                buyer.fixed_monthly_expenses as int,
                inflation,
                month as nat / (MONTHS_PER_YEAR as nat),
            ),
            payments == as_ints(monthly_payments@),
            inflation == simulation.inflation,
        decreases simulation.months_to_forecast - month,
    {
        let mut owed: i128 = money_left as i128;
        if (month as usize) < monthly_payments.len() {
            owed = owed - monthly_payments[month as usize] as i128;
        }
        owed = owed - expenses as i128;
        proof {
            lemma_scale_bounds(owed as int, buyer.investment_monthly_interest as int);
        }
        let mut total: i128 = grow(owed, buyer.investment_monthly_interest) + buyer.liquid_salary as i128;
        if month % MONTHS_PER_YEAR == 0 && month > 0 {
            total = total + buyer.yearly_bonus as i128;
        }
        let ghost before = time_series@;
        money_left = clamp_amount(total);
        time_series.push(money_left);
        proof {
            assert(as_ints(time_series@) =~= as_ints(before).push(money_left as int));
            assert(money_left == next_balance(
                as_ints(before).last(),
                month as nat,
                payments,
                *buyer,
                inflation,
            ));
        }
        if (month + 1) % MONTHS_PER_YEAR == 0 {
            proof {
                lemma_scale_bounds(expenses as int, simulation.inflation as int);
            }
            expenses = clamp_amount(grow(expenses as i128, simulation.inflation));
        }
        month = month + 1;
    }
    proof {
        lemma_balance_series_len(start, payments, *buyer, inflation, simulation.months_to_forecast as nat);
    }
    let ends_after: u32 = monthly_payments.len() as u32;
    SimulationOutput { time_series, monthly_payments, ends_after }
}

/// Under constant amortization, with a term longer than a year and a yearly
/// extra amortization that covers what is still owed after the first year,
/// the payment table of the house (whose length the simulation reports as
/// `ends_after`) ends with the twelfth month, before the nominal term.
pub proof fn lemma_early_payoff_ends_before_term(house: House, table: Seq<int>)
    requires
        house_valid(house),
        payment_table_ok(house, AmortizationStrategy::Sac, table),
        house.months_to_pay > 12,
        house.yearly_extra_amortization > 0,
        house.yearly_extra_amortization >= sac_owed(principal(house), house.months_to_pay as nat, 12),
    ensures
        table.len() == 12,
        table.len() < house.months_to_pay,
{
    lemma_sac_early_payoff(
        principal(house),
        house.house_monthly_interest as int,
        house.months_to_pay as nat,
        house.yearly_extra_amortization as int,
    );
}

/// A buyer with no income, expenses, investment growth or bonus.
pub open spec fn quiet_buyer(buyer: Buyer) -> bool {
    &&& buyer.liquid_salary == 0
    &&& buyer.fixed_monthly_expenses == 0
    &&& buyer.investment_monthly_interest == 0
    &&& buyer.yearly_bonus == 0
}

/// Expenses of zero stay zero whatever the inflation.
proof fn lemma_no_expenses(inflation: int, year: nat)
    ensures
        expenses_in_year(0, inflation, year) == 0,
    decreases year,
{
    if year > 0 {
        lemma_no_expenses(inflation, (year - 1) as nat);
    }
}

/// For a quiet buyer paying `payment` every month, the balance after `month`
/// months is the start less `month` payments.
proof fn lemma_quiet_series(start: int, table: Seq<int>, buyer: Buyer, inflation: int, payment: int, month: nat)
    requires
        quiet_buyer(buyer),
        within_limit(start),
        payment >= 0,
        month <= table.len(),
        forall|k: int| 0 <= k < table.len() ==> #[trigger] table[k] == payment,
        start - table.len() * payment >= -AMOUNT_LIMIT,
    ensures
        balance_series(start, table, buyer, inflation, month).len() == month + 1,
        balance_series(start, table, buyer, inflation, month).last() == start - month * payment,
    decreases month,
{
    lemma_balance_series_len(start, table, buyer, inflation, month);
    if month == 0 {
        assert(month * payment == 0) by (nonlinear_arith)
            requires
                month == 0,
        ;
    } else {
        let m = (month - 1) as nat;
        lemma_quiet_series(start, table, buyer, inflation, payment, m);
        lemma_no_expenses(inflation, m / (MONTHS_PER_YEAR as nat));
        let owed = start - m * payment - payment;
        assert(owed == start - month * payment) by (nonlinear_arith)
            requires
                owed == start - m * payment - payment,
                month == m + 1,
        ;
        assert(month * payment <= table.len() * payment) by (nonlinear_arith)
            requires
                month <= table.len(),
                payment >= 0,
        ;
        assert(month * payment >= 0) by (nonlinear_arith)
            requires
                payment >= 0,
        ;
        if owed >= 0 {
            assert(owed * 1_000_000_000 / 1_000_000_000 == owed) by (nonlinear_arith);
        } else {
            assert((-owed) * 1_000_000_000 / 1_000_000_000 == -owed) by (nonlinear_arith);
        }
        assert(scale(owed, 0) == owed);
    }
}

/// With no income, expenses, growth or bonus, a constant-payment loan and a
/// forecast as long as the term, the final balance is the starting balance
/// less the term's payments (as long as that stays above `-AMOUNT_LIMIT`).
pub proof fn lemma_fixed_payment_balance(start: int, house: House, table: Seq<int>, buyer: Buyer, inflation: int)
    requires
        quiet_buyer(buyer),
        price_table_ok(house, table),
        house.months_to_pay > 0,
        within_limit(start),
        start - house.months_to_pay * table[0] >= -AMOUNT_LIMIT,
    ensures
        balance_series(start, table, buyer, inflation, house.months_to_pay as nat).last() == start
            - house.months_to_pay * table[0],
{
    lemma_quiet_series(start, table, buyer, inflation, table[0], house.months_to_pay as nat);
}

} // verus!
