use wrk_report::{Decimal, parse_count, parse_to_milliseconds};

fn num(d: &Decimal) -> f64 {
    d.to_text().parse::<f64>().unwrap()
}

fn assert_float_eq(a: f64, b: f64) {
    const EPSILON: f64 = 1e-6;
    assert!(
        (a - b).abs() < EPSILON,
        "Expected {a} to be approximately equal to {b}"
    );
}

#[test]
fn test_parse_to_milliseconds() {
    assert_float_eq(num(&parse_to_milliseconds("2s")), 2000.0);
    assert_float_eq(num(&parse_to_milliseconds("500ms")), 500.0);
    assert_float_eq(num(&parse_to_milliseconds("1000us")), 1.0);
    assert_float_eq(num(&parse_to_milliseconds("42")), 42.0);
    assert_float_eq(num(&parse_to_milliseconds("bad")), 0.0);
    assert_float_eq(num(&parse_to_milliseconds("  3.5s  ")), 3500.0);
    assert_float_eq(num(&parse_to_milliseconds("10MS")), 10.0);
    assert_float_eq(num(&parse_to_milliseconds("68.46%")), 68.46);
}

#[test]
fn test_parse_count() {
    assert_float_eq(num(&parse_count("56.20k")), 56200.0);
    assert_float_eq(num(&parse_count("8.07k")), 8070.0);
    assert_float_eq(num(&parse_count("62.00k")), 62000.0);
    assert_float_eq(num(&parse_count("86.54%")), 86.54);
    assert_float_eq(num(&parse_count("1.5M")), 1_500_000.0);
    assert_float_eq(num(&parse_count("2.5")), 2.5);
}

#[test]
fn duration_text_is_exact() {
    assert_eq!(parse_to_milliseconds("635.91us").to_text(), "0.63591");
    assert_eq!(parse_to_milliseconds("2s").to_text(), "2000");
    assert_eq!(parse_to_milliseconds("1.5s").to_text(), "1500");
    assert_eq!(parse_to_milliseconds("1000us").to_text(), "1.000");
    assert_eq!(parse_to_milliseconds("5us").to_text(), "0.005");
    assert_eq!(parse_to_milliseconds("bad").to_text(), "0");
    assert_eq!(parse_to_milliseconds("").to_text(), "0");
}

#[test]
fn duration_units_ignore_case() {
    assert_eq!(parse_to_milliseconds("2S").to_text(), "2000");
    assert_eq!(parse_to_milliseconds("250US").to_text(), "0.250");
    assert_eq!(parse_to_milliseconds("7Ms").to_text(), "7");
}

#[test]
fn malformed_numerals_give_zero() {
    assert_eq!(parse_to_milliseconds("1.2.3ms").to_text(), "0");
    assert_eq!(parse_to_milliseconds(".ms").to_text(), "0");
    assert_eq!(parse_count("k").to_text(), "0");
    assert_eq!(parse_count("0.0k").to_text(), "0");
}

#[test]
fn count_text_is_exact() {
    assert_eq!(parse_count("56.20k").to_text(), "56200");
    assert_eq!(parse_count("1.5M").to_text(), "1500000");
    assert_eq!(parse_count("2.5m").to_text(), "2500000");
    assert_eq!(parse_count(".5k").to_text(), "500");
    assert_eq!(parse_count("86.54%").to_text(), "86.54");
}
