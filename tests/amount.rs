use escrow_bot::amount::parse_amount;
use escrow_bot::policy::in_window;

#[test]
fn amount_fraction_to_units() {
    assert_eq!(parse_amount("0.0005"), Some(50_000));
}

#[test]
fn amount_whole_coins() {
    assert_eq!(parse_amount("1"), Some(100_000_000));
    assert_eq!(parse_amount("21"), Some(2_100_000_000));
}

#[test]
fn amount_mixed() {
    assert_eq!(parse_amount("1.5"), Some(150_000_000));
    assert_eq!(parse_amount("0.00000001"), Some(1));
}

#[test]
fn amount_leading_or_trailing_dot() {
    assert_eq!(parse_amount(".5"), Some(50_000_000));
    assert_eq!(parse_amount("5."), Some(500_000_000));
}

#[test]
fn amount_digits_past_eighth_dropped() {
    assert_eq!(parse_amount("0.123456789"), Some(12_345_678));
}

#[test]
fn amount_rejects_malformed() {
    assert_eq!(parse_amount(""), None);
    assert_eq!(parse_amount("."), None);
    assert_eq!(parse_amount("abc"), None);
    assert_eq!(parse_amount("1.2.3"), None);
    assert_eq!(parse_amount("-1"), None);
    assert_eq!(parse_amount("1e3"), None);
    assert_eq!(parse_amount(" 1"), None);
}

#[test]
fn amount_largest_value() {
    assert_eq!(parse_amount("184467440737.09551615"), Some(u64::MAX));
    assert_eq!(parse_amount("184467440737.09551616"), None);
    assert_eq!(parse_amount("184467440738"), None);
    assert_eq!(parse_amount("99999999999999999999999"), None);
}

#[test]
fn window_boundaries() {
    assert!(!in_window(0));
    assert!(!in_window(3));
    assert!(in_window(4));
    assert!(in_window(5));
    assert!(in_window(6));
    assert!(!in_window(7));
    assert!(!in_window(u64::MAX));
}
