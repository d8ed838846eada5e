use ohlc_forecast::parse::parse_mantissa;

#[test]
fn parses_exchange_price_strings() {
    // Kline fields come as unsigned decimals with eight fractional digits.
    assert_eq!(parse_mantissa("4.25610000", 4), Some(42561));
    assert_eq!(parse_mantissa("0.00010000", 4), Some(1));
    assert_eq!(parse_mantissa("123.00000000", 4), Some(1230000));
}

#[test]
fn parses_plain_integers() {
    assert_eq!(parse_mantissa("2", 2), Some(200));
    assert_eq!(parse_mantissa("0", 4), Some(0));
    assert_eq!(parse_mantissa("007", 2), Some(700));
}

#[test]
fn truncates_beyond_the_scale() {
    // Digits past the requested scale are dropped, not rounded.
    assert_eq!(parse_mantissa("1.23456789", 4), Some(12345));
    assert_eq!(parse_mantissa("9.99999", 2), Some(999));
}

#[test]
fn pads_short_fractions() {
    assert_eq!(parse_mantissa("1.5", 4), Some(15000));
    assert_eq!(parse_mantissa("0.2", 2), Some(20));
}

#[test]
fn rejects_malformed_numerals() {
    assert_eq!(parse_mantissa("", 4), None);
    assert_eq!(parse_mantissa(".", 4), None);
    assert_eq!(parse_mantissa("1.", 4), None);
    assert_eq!(parse_mantissa(".5", 4), None);
    assert_eq!(parse_mantissa("1.2.3", 4), None);
    assert_eq!(parse_mantissa("12a", 4), None);
    assert_eq!(parse_mantissa("-1", 4), None);
    assert_eq!(parse_mantissa("1e5", 4), None);
    assert_eq!(parse_mantissa(" 1", 4), None);
}

#[test]
fn rejects_oversized_values() {
    // One past i64::MAX, with and without a fractional part.
    assert_eq!(parse_mantissa("9223372036854775808", 0), None);
    assert_eq!(parse_mantissa("92233720368547758.08", 2), None);
    assert_eq!(parse_mantissa("9223372036854775807", 0), Some(i64::MAX));
    // Leading zeros do not make a value oversized.
    assert_eq!(parse_mantissa("00000000000000000000009", 0), Some(9));
}
