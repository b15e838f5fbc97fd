use house_buying::format::format_with_thousands_separator;
use house_buying::money::UNITS_PER_CURRENCY;

/// An amount in currency units, as millionths.
fn amount(x: f64) -> i64 {
    (x * UNITS_PER_CURRENCY as f64).round() as i64
}

#[test]
fn test_formatting() {
    let number = 5523.1238;
    assert_eq!(format_with_thousands_separator(amount(number)), "5,523.12");

    let number = 328.0;
    assert_eq!(format_with_thousands_separator(amount(number)), "328.00");

    let number = 0.64;
    assert_eq!(format_with_thousands_separator(amount(number)), "0.64");

    let number = 1000.120120120;
    assert_eq!(format_with_thousands_separator(amount(number)), "1,000.12");

    let number = 1_200_300.1;
    assert_eq!(format_with_thousands_separator(amount(number)), "1,200,300.10");
}

#[test]
fn formatting_negative_and_rounding() {
    assert_eq!(format_with_thousands_separator(-1_234_567_000), "-1,234.57");
    assert_eq!(format_with_thousands_separator(-4_999), "0.00");
    assert_eq!(format_with_thousands_separator(-5_000), "-0.01");
    assert_eq!(format_with_thousands_separator(999_995_000), "1,000.00");
    assert_eq!(format_with_thousands_separator(0), "0.00");
    assert_eq!(format_with_thousands_separator(i64::MIN), "-9,223,372,036,854.78");
    assert_eq!(format_with_thousands_separator(i64::MAX), "9,223,372,036,854.78");
}
