use backtester::fixed::Fixed;
use backtester::price_print::format_price;
use backtester::price_text::parse_price;

fn raw_of(text: &str) -> Option<i64> {
    parse_price(text.as_bytes()).map(|price| price.raw)
}

fn text_of(raw: i64) -> String {
    String::from_utf8(format_price(Fixed::from_raw(raw))).expect("digits are text")
}

#[test]
fn whole_numbers_are_read() {
    assert_eq!(raw_of("100"), Some(10_000_000_000));
    assert_eq!(raw_of("0"), Some(0));
    assert_eq!(raw_of("007"), Some(700_000_000));
}

#[test]
fn fractions_are_read() {
    assert_eq!(raw_of("100.01"), Some(10_001_000_000));
    assert_eq!(raw_of("0.5"), Some(50_000_000));
    assert_eq!(raw_of("1.3"), Some(130_000_000));
    assert_eq!(raw_of("0.00000001"), Some(1));
    assert_eq!(raw_of("3.14159265"), Some(314_159_265));
}

#[test]
fn a_point_may_stand_first_or_last() {
    assert_eq!(raw_of(".5"), Some(50_000_000));
    assert_eq!(raw_of("5."), Some(500_000_000));
    assert_eq!(raw_of("."), None);
}

#[test]
fn signs_are_read() {
    assert_eq!(raw_of("-1.5"), Some(-150_000_000));
    assert_eq!(raw_of("+1.5"), Some(150_000_000));
    assert_eq!(raw_of("-0"), Some(0));
    assert_eq!(raw_of("-"), None);
    assert_eq!(raw_of("+"), None);
    assert_eq!(raw_of("--1"), None);
    assert_eq!(raw_of("1-"), None);
}

#[test]
fn digits_past_the_eighth_are_dropped() {
    assert_eq!(raw_of("0.123456789"), Some(12_345_678));
    assert_eq!(raw_of("0.30000000000000004"), Some(30_000_000));
    assert_eq!(raw_of("1.999999999"), Some(199_999_999));
    assert_eq!(raw_of("0.000000009"), Some(0));
    assert_eq!(raw_of("0.12345678x"), None);
}

#[test]
fn white_space_at_the_end_is_tolerated() {
    assert_eq!(raw_of("100.01 "), Some(10_001_000_000));
    assert_eq!(raw_of("100.01\t \r\n"), Some(10_001_000_000));
    assert_eq!(raw_of("   "), None);
    assert_eq!(raw_of(" 100.01"), None);
    assert_eq!(raw_of("100 .01"), None);
}

#[test]
fn lines_that_are_no_numbers_are_refused() {
    assert_eq!(raw_of("abc"), None);
    assert_eq!(raw_of(""), None);
    assert_eq!(raw_of("1.2.3"), None);
    assert_eq!(raw_of("1,5"), None);
    assert_eq!(raw_of("nan"), None);
    assert_eq!(raw_of("NaN"), None);
    assert_eq!(raw_of("inf"), None);
    assert_eq!(raw_of("-infinity"), None);
    assert_eq!(raw_of("1_000"), None);
    assert_eq!(raw_of("12a"), None);
    assert_eq!(raw_of("0x10"), None);
}

#[test]
fn the_largest_number_is_read_and_the_next_is_refused() {
    assert_eq!(raw_of("92233720368.54775807"), Some(i64::MAX));
    assert_eq!(raw_of("-92233720368.54775807"), Some(-i64::MAX));
    assert_eq!(raw_of("92233720368.54775808"), None);
    assert_eq!(raw_of("-92233720368.54775808"), None);
    assert_eq!(raw_of("92233720369"), None);
    assert_eq!(raw_of("99999999999999999999999999999999999999"), None);
    assert_eq!(raw_of("00000000000000000000000000000000000001"), Some(100_000_000));
}

#[test]
fn numbers_are_written_without_needless_digits() {
    assert_eq!(text_of(10_000_000_000), "100");
    assert_eq!(text_of(10_001_000_000), "100.01");
    assert_eq!(text_of(130_000_000), "1.3");
    assert_eq!(text_of(110_000_000), "1.1");
    assert_eq!(text_of(97_500_000), "0.975");
    assert_eq!(text_of(0), "0");
    assert_eq!(text_of(1), "0.00000001");
    assert_eq!(text_of(-1), "-0.00000001");
    assert_eq!(text_of(-150_000_000), "-1.5");
    assert_eq!(text_of(i64::MAX), "92233720368.54775807");
    assert_eq!(text_of(i64::MIN), "-92233720368.54775808");
}

#[test]
fn what_is_written_is_read_back() {
    let mut raw: i64 = 1;
    let mut samples = vec![0, i64::MAX, -i64::MAX, 10_001_000_000, -10_001_000_000, 99_999_999];
    while raw < i64::MAX / 7 {
        samples.push(raw);
        samples.push(-raw);
        samples.push(raw + 1);
        raw = raw * 7 + 3;
    }
    for raw in samples {
        let text = format_price(Fixed::from_raw(raw));
        assert_eq!(parse_price(&text), Some(Fixed::from_raw(raw)));
    }
}

#[test]
fn larger_and_smaller_of_two_numbers() {
    let low = Fixed::from_raw(-5);
    let high = Fixed::from_raw(7);
    assert_eq!(low.max(high), high);
    assert_eq!(high.max(low), high);
    assert_eq!(low.min(high), low);
    assert_eq!(high.min(low), low);
    assert_eq!(high.min(high), high);
}

#[test]
fn exponents_move_the_point() {
    assert_eq!(raw_of("1e5"), Some(10_000_000_000_000));
    assert_eq!(raw_of("1E+02"), Some(10_000_000_000));
    assert_eq!(raw_of("1.5E-3"), Some(150_000));
    assert_eq!(raw_of("-1e2"), Some(-10_000_000_000));
    assert_eq!(raw_of(".5e1"), Some(500_000_000));
    assert_eq!(raw_of("5.e0"), Some(500_000_000));
    assert_eq!(raw_of("12345678901e-3"), Some(1_234_567_890_100_000));
    assert_eq!(raw_of("100.01e0"), Some(10_001_000_000));
    assert_eq!(raw_of("0.00010001E6 "), Some(10_001_000_000));
}

#[test]
fn exponents_drop_what_falls_behind_the_eighth_digit() {
    assert_eq!(raw_of("1e-8"), Some(1));
    assert_eq!(raw_of("1e-9"), Some(0));
    assert_eq!(raw_of("19e-9"), Some(1));
    assert_eq!(raw_of("123456789e-12"), Some(12_345));
    assert_eq!(raw_of("-1e-9"), Some(0));
}

#[test]
fn malformed_exponents_are_refused() {
    assert_eq!(raw_of("1e"), None);
    assert_eq!(raw_of("1e+"), None);
    assert_eq!(raw_of("1e-"), None);
    assert_eq!(raw_of("e5"), None);
    assert_eq!(raw_of(".e5"), None);
    assert_eq!(raw_of("1e5.0"), None);
    assert_eq!(raw_of("1e 5"), None);
    assert_eq!(raw_of("1e5e5"), None);
    assert_eq!(raw_of("1e++5"), None);
    assert_eq!(raw_of("1f5"), None);
}

#[test]
fn exponents_of_any_size_are_read() {
    assert_eq!(raw_of("9e10"), Some(9_000_000_000_000_000_000));
    assert_eq!(raw_of("1e11"), None);
    assert_eq!(raw_of("9223372036854775807e-8"), Some(i64::MAX));
    assert_eq!(raw_of("9223372036854775808e-8"), None);
    assert_eq!(raw_of("0.0000000000000000000000009e35"), Some(9_000_000_000_000_000_000));
    assert_eq!(raw_of("0e99999999999999999999999999999999999999999"), Some(0));
    assert_eq!(raw_of("0.000e99999999999999999999999999999999999999999"), Some(0));
    assert_eq!(raw_of("1e99999999999999999999999999999999999999999"), None);
    assert_eq!(raw_of("0.1e99999999999999999999999999999999999999999"), None);
    assert_eq!(raw_of("1e-99999999999999999999999999999999999999999"), Some(0));
    assert_eq!(raw_of("987654321e-99999999999999999999999999999999999999999"), Some(0));
    assert_eq!(raw_of("1e1000000000000000000000000000000"), None);
    assert_eq!(raw_of("0e1000000000000000000000000000001"), Some(0));
    assert_eq!(raw_of("5e-1000000000000000000000000000000"), Some(0));
    assert_eq!(raw_of("1e0000000000000000000000000000000000000000002"), Some(10_000_000_000));
}
