use autocompound::decimal::parse_decimal;
use autocompound::error::CycleError;

#[test]
fn parses_a_commission_ratio() {
    assert_eq!(parse_decimal(b"0.05", 12), Ok(50_000_000_000));
    assert_eq!(parse_decimal(b"0.050000000000", 12), Ok(50_000_000_000));
    assert_eq!(parse_decimal(b"1", 12), Ok(1_000_000_000_000));
}

#[test]
fn parses_an_amount_in_smallest_units() {
    assert_eq!(parse_decimal(b"1046.272905", 6), Ok(1_046_272_905));
    assert_eq!(parse_decimal(b"3000000", 6), Ok(3_000_000_000_000));
    assert_eq!(parse_decimal(b"0", 0), Ok(0));
    assert_eq!(parse_decimal(b"12.5", 1), Ok(125));
}

#[test]
fn rejects_malformed_text() {
    for text in [&b""[..], b".", b"1.", b".5", b"1.2.3", b"-0.1", b"1e3", b" 1", b"0,5"] {
        assert_eq!(parse_decimal(text, 12), Err(CycleError::Conversion));
    }
}

#[test]
fn rejects_more_digits_than_the_scale() {
    assert_eq!(parse_decimal(b"0.1234567", 6), Err(CycleError::Conversion));
    assert_eq!(parse_decimal(b"0.123456", 6), Ok(123_456));
}

#[test]
fn rejects_values_beyond_u128() {
    assert_eq!(
        parse_decimal(b"340282366920938463463374607431768211455", 0),
        Ok(u128::MAX)
    );
    assert_eq!(
        parse_decimal(b"340282366920938463463374607431768211456", 0),
        Err(CycleError::Conversion)
    );
    assert_eq!(parse_decimal(b"340282366920938463463374607431768211455", 1), Err(CycleError::Conversion));
    assert_eq!(parse_decimal(b"1", 38), Ok(100_000_000_000_000_000_000_000_000_000_000_000_000));
}
