use house_buying::amortization::calculate_monthly_payments_sac_table;
use house_buying::model::{validate_inputs, Buyer, House, InvalidInput, Simulation};
use house_buying::money::{clamp_amount, grow, AMOUNT_LIMIT, RATE_ONE, UNITS_PER_CURRENCY};
use house_buying::simulation::{calculate_money_timeseries_after_months, monthly_payment_table, AmortizationStrategy};
use house_buying::solver::{calculate_left, calculate_monthly_payment_price_table, ERR, MAX_ITERS, UPPER_BOUND};

/// Millionths per currency unit.
const M: i64 = UNITS_PER_CURRENCY;

fn quiet_buyer(starting_money: i64) -> Buyer {
    Buyer {
        starting_money,
        liquid_salary: 0,
        fixed_monthly_expenses: 0,
        investment_monthly_interest: 0,
        yearly_bonus: 0,
    }
}

fn loan(house_price: i64, down_payment: i64, rate: u32, months: u32, extra: i64) -> House {
    House {
        house_price,
        down_payment,
        house_monthly_interest: rate,
        months_to_pay: months,
        yearly_extra_amortization: extra,
    }
}

fn solve(value: i64, rate: u32, months: u32) -> i64 {
    calculate_monthly_payment_price_table(value, rate, months, ERR, MAX_ITERS, UPPER_BOUND)
}

#[test]
fn zero_rate_payment_is_principal_over_term() {
    for (value, months) in [(M, 3i64), (M, 4), (1000 * M, 3), (450_000 * M, 60), (7 * M, 360)] {
        let p = solve(value, 0, months as u32);
        // |p - value / months| < ERR, in exact arithmetic.
        assert!((months * p - value).abs() < ERR * months);
    }
    assert_eq!(solve(M, 0, 4), 250_000);
}

#[test]
fn residual_does_not_increase_with_payment() {
    let mut previous = calculate_left(0, 450_000 * M, 13_000_000, 60);
    let mut payment: i64 = 0;
    while payment <= 20_000 * M {
        let left = calculate_left(payment, 450_000 * M, 13_000_000, 60);
        assert!(left <= previous);
        previous = left;
        payment += 250 * M;
    }
}

#[test]
fn residual_interest_only_on_positive_balance() {
    // 1000 at 10%: 1100 - 600 = 500, 550 - 600 = -50, then no interest: -650.
    assert_eq!(calculate_left(600 * M, 1000 * M, 100_000_000, 3), -650 * M);
}

#[test]
fn residual_saturates() {
    assert_eq!(calculate_left(0, i64::MAX, RATE_ONE, 1), AMOUNT_LIMIT);
    assert_eq!(calculate_left(i64::MAX, 0, 0, 2), -AMOUNT_LIMIT);
}

#[test]
fn payment_search_stops_at_upper_bound() {
    // No payment below the bound repays this loan: the last midpoint is returned.
    assert_eq!(solve(AMOUNT_LIMIT, 0, 1), UPPER_BOUND - 1);
}

#[test]
fn fixed_payment_table_repeats_the_solved_payment() {
    let house = loan(500_000 * M, 50_000 * M, 13_000_000, 60, 0);
    let table = monthly_payment_table(&house, AmortizationStrategy::Price);
    assert_eq!(table.len(), 60);
    let solved = solve(450_000 * M, 13_000_000, 60);
    assert!(table.iter().all(|p| *p == solved));
}

#[test]
fn fixed_payment_scenario() {
    let p = solve(450_000 * M, 13_000_000, 60);
    assert!((p - 10_847_700_000).abs() <= M / 10);
    assert_eq!(p, 10_847_716_254);
}

#[test]
fn sac_without_extra_is_decreasing_and_repays_the_principal() {
    let value = 1000 * M;
    let table = calculate_monthly_payments_sac_table(value, 10_000_000, 120, 0);
    assert_eq!(table.len(), 120);
    for k in 1..table.len() {
        assert!(table[k] < table[k - 1]);
    }
    // Each payment is the interest on what is owed plus the month's share;
    // the first share also carries the remainder of value / 120.
    let base = value / 120;
    let mut owed = value;
    let mut shares = 0;
    for (k, p) in table.iter().enumerate() {
        let share = if k == 0 { base + value % 120 } else { base };
        assert_eq!(*p, owed * 10_000_000 / RATE_ONE as i64 + share);
        owed -= share;
        shares += share;
    }
    assert_eq!(owed, 0);
    assert_eq!(shares, value);
    assert_eq!(table[0], 18_333_373);
    assert_eq!(table[1], 18_249_999);
}

#[test]
fn sac_shares_add_up_to_an_uneven_principal() {
    let table = calculate_monthly_payments_sac_table(M, 0, 3, 0);
    assert_eq!(table, vec![333_334, 333_333, 333_333]);
    assert_eq!(table.iter().sum::<i64>(), M);
    let table = calculate_monthly_payments_sac_table(455_232_550_000, 0, 52, 0);
    assert_eq!(table.len(), 52);
    assert_eq!(table.iter().sum::<i64>(), 455_232_550_000);
}

#[test]
fn sac_total_is_principal_plus_interest() {
    // 1000 at 3% over 4 months: interest on 1000, 750, 500 and 250.
    let table = calculate_monthly_payments_sac_table(1000 * M, 30_000_000, 4, 0);
    assert_eq!(table.iter().sum::<i64>(), 1075 * M);
}

#[test]
fn sac_small_share_low_rate_still_decreasing() {
    // 1000 units at 0.01% a month over 360 months.
    let table = calculate_monthly_payments_sac_table(1000 * M, 100_000, 360, 0);
    assert_eq!(table.len(), 360);
    for k in 1..table.len() {
        assert!(table[k] < table[k - 1]);
    }
    assert_eq!(&table[..4], &[2_878_057, 2_877_499, 2_877_221, 2_876_943]);
}

#[test]
fn sac_with_zero_rate_is_constant() {
    let table = calculate_monthly_payments_sac_table(1_200 * M, 0, 12, 0);
    assert_eq!(table, vec![100 * M; 12]);
}

#[test]
fn sac_scenario() {
    let table = calculate_monthly_payments_sac_table(1000 * M, 30_000_000, 4, 0);
    assert_eq!(table, vec![280 * M, 272_500_000, 265 * M, 257_500_000]);
}

#[test]
fn sac_extra_amortization_ends_early() {
    let table = calculate_monthly_payments_sac_table(1_200 * M, 10_000_000, 120, 1_200 * M);
    assert_eq!(table.len(), 12);
    for k in 1..table.len() {
        assert!(table[k] < table[k - 1]);
    }
    let table = calculate_monthly_payments_sac_table(1_200 * M, 10_000_000, 120, 600 * M);
    assert_eq!(table.len(), 24);

    let buyer = quiet_buyer(2_000 * M);
    let house = loan(1_200 * M, 0, 10_000_000, 120, 1_200 * M);
    let sim = Simulation { months_to_forecast: 36, inflation: 0 };
    let out = calculate_money_timeseries_after_months(&buyer, &house, &sim, AmortizationStrategy::Sac);
    assert_eq!(out.ends_after, 12);
    assert!(out.ends_after < house.months_to_pay);
    assert_eq!(out.monthly_payments.len(), out.ends_after as usize);
    // After the loan ends the balance stays put.
    assert_eq!(out.time_series[13], out.time_series[36]);
    assert_eq!(out.time_series[36], 1_742_600_000);
}

#[test]
fn balance_series_has_one_entry_per_month_plus_start() {
    let buyer = Buyer::default();
    let house = House::default();
    for months in [1u32, 7, 12, 120, 400] {
        let sim = Simulation { months_to_forecast: months, inflation: 0 };
        for strategy in [AmortizationStrategy::Sac, AmortizationStrategy::Price] {
            let out = calculate_money_timeseries_after_months(&buyer, &house, &sim, strategy);
            assert_eq!(out.time_series.len(), months as usize + 1);
            assert_eq!(out.time_series[0], 450_000 * M);
        }
    }
}

#[test]
fn fixed_payment_balance_scenario() {
    let buyer = quiet_buyer(500 * M);
    let house = loan(100 * M, 50 * M, 13_000_000, 60, 0);
    let sim = Simulation { months_to_forecast: 60, inflation: 0 };
    let out = calculate_money_timeseries_after_months(&buyer, &house, &sim, AmortizationStrategy::Price);
    let payment = out.monthly_payments[0];
    assert_eq!(payment, 1_205_296);
    assert_eq!(out.time_series[0], 450 * M);
    let last = out.time_series[60];
    assert!((last - (450 * M - 60 * payment)).abs() <= ERR * 60);
    assert_eq!(last, 377_682_240);
}

#[test]
fn full_simulation_with_growth_income_bonus_and_inflation() {
    let buyer = Buyer {
        starting_money: 100 * M,
        liquid_salary: 5 * M,
        fixed_monthly_expenses: 2 * M,
        investment_monthly_interest: 10_000_000,
        yearly_bonus: 10 * M,
    };
    let house = loan(60 * M, 20 * M, 10_000_000, 24, 0);
    let sim = Simulation { months_to_forecast: 14, inflation: 100_000_000 };
    let out = calculate_money_timeseries_after_months(&buyer, &house, &sim, AmortizationStrategy::Sac);
    assert_eq!(
        out.time_series,
        vec![
            80_000_000, 81_692_651, 83_419_078, 85_179_603, 86_974_567, 88_804_313, 90_669_190, 92_569_550,
            94_505_746, 96_478_138, 98_487_087, 100_532_958, 102_616_122, 114_534_951, 116_589_801,
        ]
    );
    assert_eq!(out.monthly_payments.len(), 24);
    assert_eq!(out.ends_after, 24);
    assert_eq!(&out.monthly_payments[..3], &[2_066_682, 2_049_999, 2_033_332]);
}

#[test]
fn expenses_inflate_once_a_year() {
    let buyer = Buyer { fixed_monthly_expenses: M, ..quiet_buyer(0) };
    let house = loan(M, 0, 0, 1, 0);
    let sim = Simulation { months_to_forecast: 25, inflation: 100_000_000 };
    let out = calculate_money_timeseries_after_months(&buyer, &house, &sim, AmortizationStrategy::Sac);
    assert_eq!(out.time_series[12], -13_000_000);
    assert_eq!(out.time_series[13], -14_100_000);
    assert_eq!(out.time_series[14], -15_200_000);
    assert_eq!(out.time_series[24], -26_200_000);
    assert_eq!(out.time_series[25], -27_410_000);
}

#[test]
fn negative_balance_shrinks_with_growth() {
    let buyer = Buyer { investment_monthly_interest: 100_000_000, ..quiet_buyer(0) };
    let house = loan(M, 0, 0, 1, 0);
    let sim = Simulation { months_to_forecast: 2, inflation: 0 };
    let out = calculate_money_timeseries_after_months(&buyer, &house, &sim, AmortizationStrategy::Sac);
    assert_eq!(out.time_series, vec![0, -1_100_000, -1_210_000]);
}

#[test]
fn growth_and_saturation_helpers() {
    assert_eq!(grow(1_000, 100_000_000), 1_100);
    assert_eq!(grow(-1_005, 100_000_000), -1_105);
    assert_eq!(grow(7, 0), 7);
    assert_eq!(clamp_amount(i128::MAX), AMOUNT_LIMIT);
    assert_eq!(clamp_amount(-(AMOUNT_LIMIT as i128) - 1), -AMOUNT_LIMIT);
    assert_eq!(clamp_amount(42), 42);
}

#[test]
fn validation_reports_each_problem() {
    let buyer = Buyer::default();
    let house = House::default();
    let sim = Simulation::default();
    assert_eq!(validate_inputs(&buyer, &house, &sim), Ok(()));
    let h = House { months_to_pay: 0, ..house };
    assert_eq!(validate_inputs(&buyer, &h, &sim), Err(InvalidInput::NonPositiveTerm));
    let s = Simulation { months_to_forecast: 0, ..sim };
    assert_eq!(validate_inputs(&buyer, &house, &s), Err(InvalidInput::EmptyForecast));
    let b = Buyer { starting_money: AMOUNT_LIMIT + 1, ..buyer };
    assert_eq!(validate_inputs(&b, &house, &sim), Err(InvalidInput::AmountOutOfRange));
    let h = House { house_price: AMOUNT_LIMIT, down_payment: -1, ..house };
    assert_eq!(validate_inputs(&buyer, &h, &sim), Err(InvalidInput::AmountOutOfRange));
    let h = House { down_payment: 600_000 * M, ..house };
    assert_eq!(validate_inputs(&buyer, &h, &sim), Err(InvalidInput::NonPositivePrincipal));
    let h = House { yearly_extra_amortization: -1, ..house };
    assert_eq!(validate_inputs(&buyer, &h, &sim), Err(InvalidInput::NegativeExtraAmortization));
}

#[test]
fn defaults() {
    let b = Buyer::default();
    assert_eq!(b.starting_money, 600_000 * M);
    assert_eq!(b.liquid_salary, 20_000 * M);
    assert_eq!(b.fixed_monthly_expenses, 7_000 * M);
    assert_eq!(b.investment_monthly_interest, 10_000_000);
    let h = House::default();
    assert_eq!(h.house_price, 600_000 * M);
    assert_eq!(h.down_payment, 150_000 * M);
    assert_eq!(h.months_to_pay, 120);
    let s = Simulation::default();
    assert_eq!(s.months_to_forecast, 120);
    assert_eq!(AmortizationStrategy::default(), AmortizationStrategy::Sac);
}

#[test]
fn sac_principal_below_term_runs_full_term() {
    // 5 millionths over 10 months: the first share is the whole principal,
    // the rest are zero, and the table still covers the term.
    let table = calculate_monthly_payments_sac_table(5, 30_000_000, 10, 0);
    assert_eq!(table, vec![5, 0, 0, 0, 0, 0, 0, 0, 0, 0]);
    // With a lump sum, the table ends after the first loan year.
    let table = calculate_monthly_payments_sac_table(5, 30_000_000, 24, 3);
    assert_eq!(table.len(), 12);

    let buyer = quiet_buyer(M);
    let house = loan(5, 0, 30_000_000, 10, 0);
    let sim = Simulation { months_to_forecast: 12, inflation: 0 };
    let out = calculate_money_timeseries_after_months(&buyer, &house, &sim, AmortizationStrategy::Sac);
    assert_eq!(out.ends_after, 10);
    assert_eq!(out.monthly_payments.len(), 10);
    assert_eq!(out.time_series[12], M - 5);
}

#[test]
fn fixed_payment_balance_over_various_terms() {
    for months in [1u32, 12, 60, 240] {
        let buyer = quiet_buyer(450_000 * M);
        let house = loan(300_000 * M, 0, 10_000_000, months, 0);
        let sim = Simulation { months_to_forecast: months, inflation: 0 };
        let out = calculate_money_timeseries_after_months(&buyer, &house, &sim, AmortizationStrategy::Price);
        let payment = out.monthly_payments[0];
        assert_eq!(out.ends_after, months);
        assert_eq!(out.time_series[months as usize], 450_000 * M - months as i64 * payment);
    }
}
