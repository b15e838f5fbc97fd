//! Display of amounts: currency units with thousands separators and two
//! decimals.
use vstd::prelude::*;

verus! {

/// The decimal digit `d` as a character.
pub open spec fn digit_char(d: int) -> char {
    ((48 + d) as u8) as char
}

fn digit(d: u64) -> (c: char)
    requires
        d < 10,
    ensures
        c == digit_char(d as int),
{
    (48u8 + d as u8) as char
}

/// The decimal digits of `n`, most significant first, without leading zeros.
pub open spec fn digits(n: nat) -> Seq<char>
    decreases n,
{
    if n < 10 {
        seq![digit_char(n as int)]
    } else {
        digits(n / 10).push(digit_char((n % 10) as int))
    }
}

/// The decimal digits of `n` with a comma between groups of three.
pub open spec fn grouped(n: nat) -> Seq<char>
    decreases n,
{
    if n < 1000 {
        digits(n)
    } else {
        grouped(n / 1000) + seq![
            ',',
            digit_char((n % 1000 / 100) as int),
            digit_char((n % 100 / 10) as int),
            digit_char((n % 10) as int),
        ]
    }
}

/// The magnitude of `amount` (in millionths) in hundredths, rounded half up.
pub open spec fn rounded_cents(amount: int) -> nat {
    (((if amount < 0 { -amount } else { amount }) + 5000) / 10000) as nat
}

/// `amount` (in millionths) written in currency units: a minus sign when it
/// is negative and does not round to zero, the whole units grouped by
/// thousands, a point and two decimals.
pub open spec fn formatted_amount(amount: int) -> Seq<char> {
    let cents = rounded_cents(amount);
    let sign = if amount < 0 && cents > 0 { seq!['-'] } else { seq![] };
    sign + grouped(cents / 100) + seq!['.', digit_char((cents % 100 / 10) as int), digit_char((cents % 10) as int)]
}

/// Relies on `String::push`: appends one character to the string.
#[verifier::external_body]
fn push_char(s: &mut String, c: char)
    ensures
        final(s)@ == old(s)@.push(c),
{
    s.push(c);
}

fn push_digits(out: &mut String, n: u64)
    ensures
        final(out)@ == old(out)@ + digits(n as nat),
    decreases n,
{
    if n < 10 {
        push_char(out, digit(n));
        assert(final(out)@ =~= old(out)@ + digits(n as nat));
    } else {
        push_digits(out, n / 10);
        push_char(out, digit(n % 10));
        assert(final(out)@ =~= old(out)@ + digits(n as nat));
    }
}

fn push_grouped(out: &mut String, n: u64)
    ensures
        final(out)@ == old(out)@ + grouped(n as nat),
    decreases n,
{
    if n < 1000 {
        push_digits(out, n);
    } else {
        push_grouped(out, n / 1000);
        push_char(out, ',');
        push_char(out, digit(n % 1000 / 100));
        push_char(out, digit(n % 100 / 10));
        push_char(out, digit(n % 10));
        assert(final(out)@ =~= old(out)@ + grouped(n as nat));
    }
}

/// Writes `amount` (in millionths) in currency units with thousands
/// separators and two decimals, rounding half up: `1_200_300_100_000` is
/// `"1,200,300.10"`.
pub fn format_with_thousands_separator(amount: i64) -> (s: String)
    ensures
        s@ == formatted_amount(amount as int),
{
    let magnitude: u64 = if amount < 0 {
        (-(amount as i128)) as u64
    } else {
        amount as u64
    };
    let cents: u64 = (magnitude + 5000) / 10000;
    let mut out = String::new();
    if amount < 0 && cents > 0 {
        push_char(&mut out, '-');
    }
    push_grouped(&mut out, cents / 100);
    push_char(&mut out, '.');
    push_char(&mut out, digit(cents % 100 / 10));
    push_char(&mut out, digit(cents % 10));
    assert(out@ =~= formatted_amount(amount as int));
    out
}

} // verus!
