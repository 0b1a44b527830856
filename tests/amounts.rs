use cost_report::amount::{parse_amount, Amount};
use cost_report::format::{convert_to_target, format_cost};
use cost_report::text::{cents_to_text, fit_label, int_to_text};

fn amt(units: i64) -> Amount {
    Amount { units }
}

#[test]
fn parse_plain_decimals() {
    assert_eq!(parse_amount("10.00"), Some(amt(1_000_000_000)));
    assert_eq!(parse_amount("25.50"), Some(amt(2_550_000_000)));
    assert_eq!(parse_amount("0"), Some(amt(0)));
    assert_eq!(parse_amount("-0.0000012"), Some(amt(-120)));
    assert_eq!(parse_amount("150.12345678"), Some(amt(15_012_345_678)));
}

#[test]
fn parse_cuts_digits_beyond_eight_places() {
    assert_eq!(parse_amount("1.123456789"), Some(amt(112_345_678)));
    assert_eq!(parse_amount("149.78540918209412"), Some(amt(14_978_540_918)));
}

#[test]
fn parse_rejects_non_decimals() {
    assert_eq!(parse_amount(""), None);
    assert_eq!(parse_amount("-"), None);
    assert_eq!(parse_amount("abc"), None);
    assert_eq!(parse_amount("1."), None);
    assert_eq!(parse_amount(".5"), None);
    assert_eq!(parse_amount("1.2.3"), None);
    assert_eq!(parse_amount("1e5"), None);
    assert_eq!(parse_amount(" 1"), None);
}

#[test]
fn parse_limits_to_i64_units() {
    assert_eq!(parse_amount("92233720368.54775807"), Some(amt(i64::MAX)));
    assert_eq!(parse_amount("92233720368.54775808"), None);
    assert_eq!(parse_amount("100000000000"), None);
    assert_eq!(parse_amount("-92233720368.54775807"), Some(amt(-i64::MAX)));
}

#[test]
fn format_examples_from_ranking() {
    let rate = amt(15_000_000_000);
    assert_eq!(format_cost(amt(2_550_000_000), rate), "3825円($25.5)");
    assert_eq!(format_cost(amt(1_000_000_000), rate), "1500円($10)");
}

#[test]
fn format_zero_small_and_large() {
    let rate = amt(15_000_000_000);
    assert_eq!(format_cost(amt(0), rate), "0円($0)");
    assert_eq!(format_cost(amt(400_000), rate), "1円($0.00)");
    assert_eq!(format_cost(amt(500_000), rate), "1円($0.00)");
    assert_eq!(format_cost(amt(500_001), rate), "1円($0.01)");
    assert_eq!(format_cost(amt(123_456_789_100_000), rate), "185185184円($1234567.89)");
}

#[test]
fn source_amount_keeps_zeros_from_rounding() {
    let rate = amt(15_000_000_000);
    assert_eq!(format_cost(amt(819_900_000), rate), "1230円($8.20)");
    assert_eq!(format_cost(amt(-400_000), rate), "-1円($-0.00)");
    assert_eq!(format_cost(amt(999_600_000), rate), "1499円($10.00)");
    assert_eq!(format_cost(amt(820_000_000), rate), "1230円($8.2)");
    assert_eq!(format_cost(amt(823_000_000), rate), "1235円($8.23)");
}

#[test]
fn source_amount_rounds_ties_to_even() {
    let rate = amt(100_000_000);
    assert_eq!(format_cost(amt(12_500_000), rate), "0円($0.12)");
    assert_eq!(format_cost(amt(13_500_000), rate), "0円($0.14)");
    assert_eq!(format_cost(amt(-12_500_000), rate), "0円($-0.12)");
    assert_eq!(format_cost(amt(5_000_000), rate), "0円($0.05)");
    assert_eq!(format_cost(amt(-150_000_000), rate), "-2円($-1.5)");
}

#[test]
fn target_amount_rounds_halves_away_from_zero() {
    let rate = amt(5_000_000_000);
    assert_eq!(convert_to_target(amt(1_000_000), rate), 1);
    assert_eq!(convert_to_target(amt(-1_000_000), rate), -1);
    assert_eq!(convert_to_target(amt(999_999), rate), 0);
    assert_eq!(convert_to_target(amt(i64::MAX), amt(i64::MAX)), 8_507_059_173_023_461_584_740);
}

#[test]
fn integer_and_cent_texts() {
    assert_eq!(int_to_text(0), "0");
    assert_eq!(int_to_text(-42), "-42");
    assert_eq!(int_to_text(i128::MIN), "-170141183460469231731687303715884105728");
    assert_eq!(cents_to_text(2550), "25.5");
    assert_eq!(cents_to_text(1000), "10");
    assert_eq!(cents_to_text(-7), "-0.07");
}

#[test]
fn label_column_pads_and_cuts() {
    let short = fit_label("S3");
    assert_eq!(short.chars().count(), 50);
    assert!(short.starts_with("S3 "));
    let long = "x".repeat(60);
    assert_eq!(fit_label(&long), "x".repeat(50));
    let wide = "日".repeat(55);
    assert_eq!(fit_label(&wide), "日".repeat(50));
}
