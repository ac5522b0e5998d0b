use ohiro_wallet::utils::{
    change_cents, format_money, format_quantity, format_signed_money, parse_money_to_cents,
    parse_quantity_to_milli,
};

#[test]
fn calculates_bitcoin_change_from_course_example() {
    let current = 1_000;
    let a = change_cents(current, 1_500, 5_000);
    let b = change_cents(current, 500, 10_000);
    assert_eq!(a + b, 2_500);
}

#[test]
fn parses_money_without_float() {
    assert_eq!(parse_money_to_cents("5.25"), Some(525));
    assert_eq!(parse_money_to_cents("0,75"), Some(75));
}

#[test]
fn parse_money_whole_and_partial_cents() {
    assert_eq!(parse_money_to_cents("12"), Some(1200));
    assert_eq!(parse_money_to_cents("5."), Some(500));
    assert_eq!(parse_money_to_cents("5.5"), Some(550));
    assert_eq!(parse_money_to_cents("5.259"), Some(525));
    assert_eq!(parse_money_to_cents("  7,1  "), Some(710));
    assert_eq!(parse_money_to_cents("+3.01"), Some(301));
    assert_eq!(parse_money_to_cents("1.a2"), Some(120));
}

#[test]
fn parse_money_refusals() {
    assert_eq!(parse_money_to_cents(""), None);
    assert_eq!(parse_money_to_cents("   "), None);
    assert_eq!(parse_money_to_cents("-5"), None);
    assert_eq!(parse_money_to_cents("1.2.3"), None);
    assert_eq!(parse_money_to_cents("1,2.3"), None);
    assert_eq!(parse_money_to_cents(".5"), None);
    assert_eq!(parse_money_to_cents("abc"), None);
    assert_eq!(parse_money_to_cents("5 0"), None);
    assert_eq!(parse_money_to_cents("99999999999999999999"), None);
}

#[test]
fn parse_money_saturates() {
    assert_eq!(parse_money_to_cents("9223372036854775807"), Some(i64::MAX));
    assert_eq!(parse_money_to_cents("92233720368547758.07"), Some(i64::MAX));
    assert_eq!(parse_money_to_cents("92233720368547758.00"), Some(9223372036854775800));
}

#[test]
fn parse_quantity_examples() {
    assert_eq!(parse_quantity_to_milli("1.5"), Some(1500));
    assert_eq!(parse_quantity_to_milli("0,001"), Some(1));
    assert_eq!(parse_quantity_to_milli("3"), Some(3000));
    assert_eq!(parse_quantity_to_milli("2.12345"), Some(2123));
    assert_eq!(parse_quantity_to_milli("-1"), None);
    assert_eq!(parse_quantity_to_milli(""), None);
    assert_eq!(parse_quantity_to_milli("1..2"), None);
}

#[test]
fn format_money_examples() {
    assert_eq!(format_money(1000), "$ 10");
    assert_eq!(format_money(525), "$ 5.25");
    assert_eq!(format_money(5), "$ 0.05");
    assert_eq!(format_money(0), "$ 0");
    assert_eq!(format_money(-5), "-$ 0.05");
    assert_eq!(format_money(-12345), "-$ 123.45");
    assert_eq!(format_money(i64::MAX), "$ 92233720368547758.07");
}

#[test]
fn format_signed_money_examples() {
    assert_eq!(format_signed_money(2500), "+25");
    assert_eq!(format_signed_money(-50), "-0.50");
    assert_eq!(format_signed_money(0), "+0");
    assert_eq!(format_signed_money(6250), "+62.50");
    assert_eq!(format_signed_money(-12500), "-125");
    assert_eq!(format_signed_money(101), "+1.01");
}

#[test]
fn format_quantity_examples() {
    assert_eq!(format_quantity(1500), "1.5");
    assert_eq!(format_quantity(2000), "2");
    assert_eq!(format_quantity(1005), "1.005");
    assert_eq!(format_quantity(1050), "1.05");
    assert_eq!(format_quantity(0), "0");
    assert_eq!(format_quantity(-1500), "-1.-5");
    assert_eq!(format_quantity(-500), "0.-5");
    assert_eq!(format_quantity(-1001), "-1.-01");
    assert_eq!(format_quantity(-1010), "-1.-1");
    assert_eq!(format_quantity(-1020), "-1.-2");
    assert_eq!(format_quantity(-1015), "-1.-15");
}

#[test]
fn change_cents_rounds_toward_zero() {
    assert_eq!(change_cents(1000, 999, 1), 0);
    assert_eq!(change_cents(999, 1000, 1), 0);
    assert_eq!(change_cents(999, 1000, 1500), -1);
    assert_eq!(change_cents(1000, 1500, 5000), -2500);
    assert_eq!(change_cents(525, 550, 500_000), -12500);
}

#[test]
fn shown_quantities_read_back() {
    for q in [0i64, 1, 7, 10, 90, 100, 1000, 1005, 1050, 1500, 2000, 123456789, i64::MAX] {
        assert_eq!(parse_quantity_to_milli(&format_quantity(q)), Some(q));
    }
}

#[test]
fn shown_money_reads_back() {
    for c in [0i64, 5, 50, 75, 100, 525, 2500, 100000, i64::MAX] {
        let shown = format_money(c);
        let amount = shown.strip_prefix("$ ").unwrap();
        assert_eq!(parse_money_to_cents(amount), Some(c));
        assert_eq!(parse_money_to_cents(&format_signed_money(c)), Some(c));
    }
}
