use payments_engine::amount::{
    balance_text, floor_amount, floor_balance, integer_text, parse_amount, parse_integer,
    MAX_AMOUNT, QUANTUM, SCALE,
};

#[test]
fn constants_fit_together() {
    assert_eq!(SCALE, 1_000_000);
    assert_eq!(QUANTUM * 10_000, SCALE);
    assert_eq!(MAX_AMOUNT, i64::MAX as u64);
}

#[test]
fn floor_amount_drops_the_fifth_and_sixth_digit() {
    assert_eq!(floor_amount(1_234_567), 1_234_500);
    assert_eq!(floor_amount(1_234_599), 1_234_500);
    assert_eq!(floor_amount(99), 0);
    assert_eq!(floor_amount(100), 100);
    assert_eq!(floor_amount(0), 0);
    assert_eq!(floor_amount(u64::MAX), u64::MAX - 15);
}

#[test]
fn floor_amount_is_idempotent() {
    for a in [0u64, 1, 99, 100, 101, 1_234_567, MAX_AMOUNT] {
        assert_eq!(floor_amount(floor_amount(a)), floor_amount(a));
        assert!(floor_amount(a) <= a);
        assert!(a - floor_amount(a) < QUANTUM);
    }
}

#[test]
fn floor_balance_rounds_towards_minus_infinity() {
    assert_eq!(floor_balance(1_234_567), 1_234_500);
    assert_eq!(floor_balance(0), 0);
    assert_eq!(floor_balance(-1), -100);
    assert_eq!(floor_balance(-99), -100);
    assert_eq!(floor_balance(-100), -100);
    assert_eq!(floor_balance(-101), -200);
    assert_eq!(floor_balance(-500_000), -500_000);
    assert_eq!(floor_balance(i128::MAX), i128::MAX - 27);
    assert_eq!(floor_balance(i128::MIN + 28), i128::MIN + 28);
}

#[test]
fn parse_integer_reads_decimal_digits() {
    assert_eq!(parse_integer(b"0", 65_535), Some(0));
    assert_eq!(parse_integer(b"7", 65_535), Some(7));
    assert_eq!(parse_integer(b"007", 65_535), Some(7));
    assert_eq!(parse_integer(b"65535", 65_535), Some(65_535));
    assert_eq!(parse_integer(b"4294967295", 0xffff_ffff), Some(4_294_967_295));
    assert_eq!(
        parse_integer(b"18446744073709551615", u64::MAX),
        Some(u64::MAX)
    );
}

#[test]
fn parse_integer_refuses_what_is_no_number_in_range() {
    assert_eq!(parse_integer(b"", 65_535), None);
    assert_eq!(parse_integer(b"65536", 65_535), None);
    assert_eq!(parse_integer(b"4294967296", 0xffff_ffff), None);
    assert_eq!(parse_integer(b"18446744073709551616", u64::MAX), None);
    assert_eq!(parse_integer(b"99999999999999999999999999", u64::MAX), None);
    assert_eq!(parse_integer(b"-1", 65_535), None);
    assert_eq!(parse_integer(b"+1", 65_535), None);
    assert_eq!(parse_integer(b"1.0", 65_535), None);
    assert_eq!(parse_integer(b"0x10", 65_535), None);
    assert_eq!(parse_integer(b" 1", 65_535), None);
    assert_eq!(parse_integer(b"1a", 65_535), None);
    assert_eq!(parse_integer(b"5", 4), None);
    assert_eq!(parse_integer(b"0", 0), Some(0));
}

#[test]
fn parse_amount_reads_decimals() {
    assert_eq!(parse_amount(b"0"), Some(0));
    assert_eq!(parse_amount(b"1"), Some(1_000_000));
    assert_eq!(parse_amount(b"1.0"), Some(1_000_000));
    assert_eq!(parse_amount(b"1."), Some(1_000_000));
    assert_eq!(parse_amount(b".5"), Some(500_000));
    assert_eq!(parse_amount(b"0.5"), Some(500_000));
    assert_eq!(parse_amount(b"10.0"), Some(10_000_000));
    assert_eq!(parse_amount(b"1.5"), Some(1_500_000));
    assert_eq!(parse_amount(b"0.7"), Some(700_000));
    assert_eq!(parse_amount(b"2.7421"), Some(2_742_100));
    assert_eq!(parse_amount(b"0.000001"), Some(1));
    assert_eq!(parse_amount(b"0.123456"), Some(123_456));
    assert_eq!(parse_amount(b"000012.340000"), Some(12_340_000));
}

#[test]
fn parse_amount_drops_digits_after_the_sixth() {
    assert_eq!(parse_amount(b"0.1234567"), Some(123_456));
    assert_eq!(parse_amount(b"0.1234569999999999999999999999"), Some(123_456));
    assert_eq!(parse_amount(b"0.0000009"), Some(0));
}

#[test]
fn parse_amount_knows_its_largest_value() {
    assert_eq!(parse_amount(b"9223372036854.775807"), Some(MAX_AMOUNT));
    assert_eq!(parse_amount(b"9223372036854.7758079"), Some(MAX_AMOUNT));
    assert_eq!(parse_amount(b"9223372036854.775808"), None);
    assert_eq!(parse_amount(b"9223372036855"), None);
    assert_eq!(parse_amount(b"99999999999999999999999999999999999999999"), None);
}

#[test]
fn parse_amount_refuses_what_is_no_decimal() {
    assert_eq!(parse_amount(b""), None);
    assert_eq!(parse_amount(b"."), None);
    assert_eq!(parse_amount(b"-1.0"), None);
    assert_eq!(parse_amount(b"+1.0"), None);
    assert_eq!(parse_amount(b"1.0.0"), None);
    assert_eq!(parse_amount(b"1..0"), None);
    assert_eq!(parse_amount(b"1,0"), None);
    assert_eq!(parse_amount(b"1e3"), None);
    assert_eq!(parse_amount(b"abc"), None);
    assert_eq!(parse_amount(b"1.0 "), None);
    assert_eq!(parse_amount(b" 1.0"), None);
    assert_eq!(parse_amount(b"1.a"), None);
    assert_eq!(parse_amount(b"NaN"), None);
    assert_eq!(parse_amount(b"inf"), None);
}

#[test]
fn integer_text_writes_decimal_digits() {
    assert_eq!(integer_text(0), b"0".to_vec());
    assert_eq!(integer_text(7), b"7".to_vec());
    assert_eq!(integer_text(10), b"10".to_vec());
    assert_eq!(integer_text(65_535), b"65535".to_vec());
    assert_eq!(integer_text(u64::MAX), b"18446744073709551615".to_vec());
}

#[test]
fn balance_text_writes_one_to_four_fraction_digits() {
    assert_eq!(balance_text(0), b"0.0".to_vec());
    assert_eq!(balance_text(10_000_000), b"10.0".to_vec());
    assert_eq!(balance_text(500_000), b"0.5".to_vec());
    assert_eq!(balance_text(1_500_000), b"1.5".to_vec());
    assert_eq!(balance_text(1_250_000), b"1.25".to_vec());
    assert_eq!(balance_text(1_234_000), b"1.234".to_vec());
    assert_eq!(balance_text(1_234_500), b"1.2345".to_vec());
    assert_eq!(balance_text(1_000_100), b"1.0001".to_vec());
    assert_eq!(balance_text(1_010_000), b"1.01".to_vec());
    assert_eq!(balance_text(100), b"0.0001".to_vec());
    assert_eq!(balance_text(123_456_789_000_000), b"123456789.0".to_vec());
}

#[test]
fn balance_text_rounds_down_to_four_digits() {
    assert_eq!(balance_text(1_234_567), b"1.2345".to_vec());
    assert_eq!(balance_text(1_234_599), b"1.2345".to_vec());
    assert_eq!(balance_text(99), b"0.0".to_vec());
    assert_eq!(balance_text(-1), b"-0.0001".to_vec());
    assert_eq!(balance_text(-100), b"-0.0001".to_vec());
    assert_eq!(balance_text(-101), b"-0.0002".to_vec());
}

#[test]
fn balance_text_writes_negative_balances() {
    assert_eq!(balance_text(-500_000), b"-0.5".to_vec());
    assert_eq!(balance_text(-1_000_000), b"-1.0".to_vec());
    assert_eq!(balance_text(-12_345_600), b"-12.3456".to_vec());
}

#[test]
fn balance_text_writes_the_ends_of_the_range() {
    assert_eq!(
        balance_text(i128::MAX),
        b"170141183460469231731687303715884.1057".to_vec()
    );
    assert_eq!(
        balance_text(i128::MIN),
        b"-170141183460469231731687303715884.1058".to_vec()
    );
}

#[test]
fn what_is_written_reads_back() {
    for a in [0u64, 100, 500_000, 1_000_000, 1_234_500, 10_000_000, 9_999_999_999_900] {
        assert_eq!(parse_amount(&balance_text(a as i128)), Some(a));
    }
}
