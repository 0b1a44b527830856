use vstd::prelude::*;
use vstd::string::*;
use rust_decimal::Decimal;
use crate::amount::Amount;
use crate::text::{cents_text, cents_to_text, int_text, int_to_text, two_places_text, two_places_to_text};

verus! {

/// `x / d` rounded to the nearest integer, halves away from zero.
pub open spec fn round_half_away(x: int, d: int) -> int {
    if x >= 0 {
        (x + d / 2) / d
    } else {
        -((-x + d / 2) / d)
    }
}

/// `x / d` for `x >= 0`, rounded to the nearest integer, halves to the even neighbour.
pub open spec fn round_half_even(x: int, d: int) -> int {
    let q = x / d;
    let r = x % d;
    if 2 * r > d || (2 * r == d && q % 2 == 1) {
        q + 1
    } else {
        q
    }
}

/// [`round_half_even`] on the magnitude, with the sign kept.
pub open spec fn round_half_even_signed(x: int, d: int) -> int {
    if x < 0 {
        -round_half_even(-x, d)
    } else {
        round_half_even(x, d)
    }
}

/// Whole target-currency units for `amount` at `rate` (target units per source unit).
pub open spec fn target_units(amount: Amount, rate: Amount) -> int {
    round_half_away(amount.units * rate.units, 10_000_000_000_000_000)
}

/// The source amount in hundredths, rounded to two places with ties to even.
pub open spec fn source_cents(amount: Amount) -> int {
    round_half_even_signed(amount.units as int, 1_000_000)
}

/// The source amount as text, rounded to two places: an amount with more than two
/// places shows exactly two, keeping zeros the rounding produced (8.199 is `8.20`,
/// 0.004 is `0.00`, -0.004 is `-0.00`); an amount with at most two places shows its
/// own places without trailing zeros (25.50 is `25.5`, 10 is `10`).
pub open spec fn source_text(amount: Amount) -> Seq<char> {
    let m = if amount.units < 0 { -amount.units } else { amount.units as int };
    if m % 1_000_000 == 0 {
        cents_text(source_cents(amount))
    } else {
        let sign = if amount.units < 0 { seq!['-'] } else { Seq::<char>::empty() };
        sign + two_places_text(round_half_even(m, 1_000_000) as nat)
    }
}

/// The dual-currency display of an amount: `<target>円($<source>)`.
pub open spec fn cost_text(amount: Amount, rate: Amount) -> Seq<char> {
    int_text(target_units(amount, rate)) + seq!['円', '(', '$'] + source_text(amount)
        + seq![')']
}

/// Relies on rust_decimal's `Decimal::round_dp`: an eight-place value rounded to two
/// places, ties to even on the magnitude, sign kept, comes back with scale 2.
#[verifier::external_body]
fn round_to_cents(units: i64) -> (r: i128)
    ensures
        r as int == round_half_even_signed(units as int, 1_000_000),
{
    Decimal::from_i128_with_scale(units as i128, 8).round_dp(2).mantissa()
}

/// Rounds `amount * rate` to whole target units, halves away from zero.
pub fn convert_to_target(amount: Amount, rate: Amount) -> (r: i128)
    ensures
        r as int == target_units(amount, rate),
{
    let a = amount.units as i128;
    let b = rate.units as i128;
    proof {
        let x = amount.units as int;
        let y = rate.units as int;
        assert(-0x4000_0000_0000_0000_0000_0000_0000_0000 <= x * y <= 0x4000_0000_0000_0000_0000_0000_0000_0000)
            by (nonlinear_arith)
            requires
                -0x8000_0000_0000_0000 <= x <= 0x7fff_ffff_ffff_ffff,
                -0x8000_0000_0000_0000 <= y <= 0x7fff_ffff_ffff_ffff,
        ;
    }
    let p: i128 = a * b;
    if p >= 0 {
        (p + 5_000_000_000_000_000) / 10_000_000_000_000_000
    } else {
        -((-p + 5_000_000_000_000_000) / 10_000_000_000_000_000)
    }
}

fn source_to_text(amount: Amount, cents: i128) -> (r: String)
    requires
        cents as int == source_cents(amount),
    ensures
        r@ == source_text(amount),
{
    let m: i128 = if amount.units < 0 { -(amount.units as i128) } else { amount.units as i128 };
    proof {
        assert(round_half_even(m as int, 1_000_000) <= 0x8000_0000_0000_0000);
    }
    if m % 1_000_000 == 0 {
        cents_to_text(cents)
    } else {
        let magnitude: i128 = if cents < 0 { -cents } else { cents };
        let digits = two_places_to_text(magnitude as u128);
        if amount.units < 0 {
            proof {
                reveal_strlit("-");
            }
            let mut s = String::from_str("-");
            s.append(digits.as_str());
            s
        } else {
            digits
        }
    }
}

/// Formats an amount in both currencies: the target amount at `rate`, rounded to
/// whole units, then the source amount rounded to two places (see [`source_text`]),
/// e.g. `1234円($8.23)`.
pub fn format_cost(amount: Amount, rate: Amount) -> (r: String)
    ensures
        r@ == cost_text(amount, rate),
{
    let target = convert_to_target(amount, rate);
    let cents = round_to_cents(amount.units);
    proof {
        assert(round_half_even(0x8000_0000_0000_0000, 1_000_000) <= 0x8000_0000_0000_0000);
        assert(round_half_even(-(amount.units as int), 1_000_000) <= 0x8000_0000_0000_0000);
        assert(round_half_even(amount.units as int, 1_000_000) <= 0x8000_0000_0000_0000);
        reveal_strlit("円($");
        reveal_strlit(")");
    }
    let mut s = int_to_text(target);
    s.append("円($");
    let c = source_to_text(amount, cents);
    s.append(c.as_str());
    s.append(")");
    proof {
        assert(s@ =~= cost_text(amount, rate));
    }
    s
}

} // verus!
