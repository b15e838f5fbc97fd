//! The parameters of a simulation: the buyer's household, the house and its
//! loan, and the forecast window, with the checks that make them acceptable.
use vstd::prelude::*;
use crate::money::AMOUNT_LIMIT;

verus! {

/// The household buying the house. Amounts are millionths of a currency
/// unit; the rate is in parts per billion per month.
#[derive(Clone, Copy, Debug)]
pub struct Buyer {
    /// Liquid balance before the down payment.
    pub starting_money: i64,
    /// Net income received every month.
    pub liquid_salary: i64,
    /// Expenses paid every month, before inflation.
    pub fixed_monthly_expenses: i64,
    /// Monthly growth rate of the invested balance.
    pub investment_monthly_interest: u32,
    /// Bonus received at the end of every year.
    pub yearly_bonus: i64,
}

impl Default for Buyer {
    fn default() -> (b: Self)
        ensures
            b.starting_money == 600_000_000_000,
            b.liquid_salary == 20_000_000_000,
            b.fixed_monthly_expenses == 7_000_000_000,
            b.investment_monthly_interest == 10_000_000,
            b.yearly_bonus == 0,
    {
        Buyer {
            starting_money: 600_000_000_000,
            liquid_salary: 20_000_000_000,
            fixed_monthly_expenses: 7_000_000_000,
            investment_monthly_interest: 10_000_000,
            yearly_bonus: 0,
        }
    }
}

/// The house and its loan. Amounts are millionths of a currency unit; the
/// rate is in parts per billion per month.
#[derive(Clone, Copy, Debug)]
pub struct House {
    /// Total price of the house.
    pub house_price: i64,
    /// Part of the price paid up front; the rest is borrowed.
    pub down_payment: i64,
    /// Monthly interest rate of the loan.
    pub house_monthly_interest: u32,
    /// Term of the loan in months.
    pub months_to_pay: u32,
    /// Lump sum repaid at the end of each loan year, under constant amortization.
    pub yearly_extra_amortization: i64,
}

impl Default for House {
    fn default() -> (h: Self)
        ensures
            h.house_price == 600_000_000_000,
            h.down_payment == 150_000_000_000,
            h.house_monthly_interest == 10_000_000,
            h.months_to_pay == 120,
            h.yearly_extra_amortization == 0,
    {
        House {
            house_price: 600_000_000_000,
            down_payment: 150_000_000_000,
            house_monthly_interest: 10_000_000,
            months_to_pay: 120,
            yearly_extra_amortization: 0,
        }
    }
}

/// The forecast window and the economy around it.
#[derive(Clone, Copy, Debug)]
pub struct Simulation {
    /// Number of months to simulate.
    pub months_to_forecast: u32,
    /// Yearly inflation of the monthly expenses, in parts per billion.
    pub inflation: u32,
}

impl Default for Simulation {
    fn default() -> (s: Self)
        ensures
            s.months_to_forecast == 120,
            s.inflation == 0,
    {
        Simulation { months_to_forecast: 120, inflation: 0 }
    }
}

/// Why a set of parameters cannot be simulated.
#[derive(Clone, Copy, Debug, PartialEq, Eq, Structural)]
pub enum InvalidInput {
    /// The loan term is zero months.
    NonPositiveTerm,
    /// The forecast window is zero months.
    EmptyForecast,
    /// An amount, or the amount borrowed, lies outside `[-AMOUNT_LIMIT, AMOUNT_LIMIT]`.
    AmountOutOfRange,
    /// The house price does not exceed the down payment.
    NonPositivePrincipal,
    /// The yearly extra amortization is negative.
    NegativeExtraAmortization,
}

/// The amount borrowed.
pub open spec fn principal(house: House) -> int {
    house.house_price - house.down_payment
}

/// `x` lies within `[-AMOUNT_LIMIT, AMOUNT_LIMIT]`.
pub open spec fn within_limit(x: int) -> bool {
    -AMOUNT_LIMIT <= x <= AMOUNT_LIMIT
}

/// Every amount given lies within the limit.
pub open spec fn amounts_within_limit(buyer: Buyer, house: House) -> bool {
    &&& within_limit(buyer.starting_money as int)
    &&& within_limit(buyer.liquid_salary as int)
    &&& within_limit(buyer.fixed_monthly_expenses as int)
    &&& within_limit(buyer.yearly_bonus as int)
    &&& within_limit(house.house_price as int)
    &&& within_limit(house.down_payment as int)
    &&& within_limit(house.yearly_extra_amortization as int)
}

/// The first problem found with the parameters, checked in the order of the
/// variants of [`InvalidInput`]; `None` when they can be simulated.
pub open spec fn input_error(buyer: Buyer, house: House, simulation: Simulation) -> Option<InvalidInput> {
    if house.months_to_pay == 0 {
        Some(InvalidInput::NonPositiveTerm)
    } else if simulation.months_to_forecast == 0 {
        Some(InvalidInput::EmptyForecast)
    } else if !amounts_within_limit(buyer, house) || principal(house) > AMOUNT_LIMIT {
        Some(InvalidInput::AmountOutOfRange)
    } else if principal(house) <= 0 {
        Some(InvalidInput::NonPositivePrincipal)
    } else if house.yearly_extra_amortization < 0 {
        Some(InvalidInput::NegativeExtraAmortization)
    } else {
        None
    }
}

/// The loan can be tabled: a positive term, a principal in `(0, AMOUNT_LIMIT]`
/// and an extra amortization in `[0, AMOUNT_LIMIT]`.
pub open spec fn house_valid(house: House) -> bool {
    &&& house.months_to_pay > 0
    &&& 0 < principal(house) <= AMOUNT_LIMIT
    &&& 0 <= house.yearly_extra_amortization <= AMOUNT_LIMIT
}

/// The parameters can be simulated.
pub open spec fn inputs_valid(buyer: Buyer, house: House, simulation: Simulation) -> bool {
    input_error(buyer, house, simulation) is None
}

/// Valid parameters have a valid loan.
pub proof fn lemma_valid_house(buyer: Buyer, house: House, simulation: Simulation)
    requires
        inputs_valid(buyer, house, simulation),
    ensures
        house_valid(house),
        amounts_within_limit(buyer, house),
        simulation.months_to_forecast > 0,
{
}

fn within_amount_limit(x: i64) -> (r: bool)
    ensures
        r == within_limit(x as int),
{
    -AMOUNT_LIMIT <= x && x <= AMOUNT_LIMIT
}

/// Checks the parameters before a simulation, reporting the first problem.
pub fn validate_inputs(buyer: &Buyer, house: &House, simulation: &Simulation) -> (r: Result<(), InvalidInput>)
    ensures
        r == match input_error(*buyer, *house, *simulation) {
            Some(e) => Err(e),
            None => Ok(()),
        },
{
    if house.months_to_pay == 0 {
        return Err(InvalidInput::NonPositiveTerm);
    }
    if simulation.months_to_forecast == 0 {
        return Err(InvalidInput::EmptyForecast);
    }
    let amounts_ok = within_amount_limit(buyer.starting_money) && within_amount_limit(buyer.liquid_salary)
        && within_amount_limit(buyer.fixed_monthly_expenses) && within_amount_limit(buyer.yearly_bonus)
        && within_amount_limit(house.house_price) && within_amount_limit(house.down_payment)
        && within_amount_limit(house.yearly_extra_amortization);
    if !amounts_ok {
        return Err(InvalidInput::AmountOutOfRange);
    }
    let borrowed: i64 = house.house_price - house.down_payment;
    if borrowed > AMOUNT_LIMIT {
        return Err(InvalidInput::AmountOutOfRange);
    }
    if borrowed <= 0 {
        return Err(InvalidInput::NonPositivePrincipal);
    }
    if house.yearly_extra_amortization < 0 {
        return Err(InvalidInput::NegativeExtraAmortization);
    }
    Ok(())
}

} // verus!
