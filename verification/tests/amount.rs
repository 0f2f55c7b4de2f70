use paygate::amount::{Amount, AmountError};

fn parse(s: &str, d: u8) -> Result<Amount, AmountError> {
    Amount::from_decimal_string(&s.as_bytes().to_vec(), d)
}

fn render(a: Amount, d: u8) -> String {
    String::from_utf8(a.to_decimal_string(d)).unwrap()
}

#[test]
fn parses_plain_integers() {
    assert_eq!(parse("0", 6).unwrap().units, 0);
    assert_eq!(parse("7", 0).unwrap().units, 7);
    assert_eq!(parse("42", 6).unwrap().units, 42_000_000);
}

#[test]
fn parses_fractions_at_declared_decimals() {
    assert_eq!(parse("0.001", 6).unwrap().units, 1_000);
    assert_eq!(parse("1.5", 2).unwrap().units, 150);
    assert_eq!(parse("0.000001", 6).unwrap().units, 1);
    assert_eq!(parse("12.345678", 6).unwrap().units, 12_345_678);
}

#[test]
fn rejects_more_fraction_digits_than_decimals() {
    assert_eq!(parse("0.0000001", 6), Err(AmountError::MalformedDecimal));
    assert_eq!(parse("1.23", 1), Err(AmountError::MalformedDecimal));
    assert_eq!(parse("0.1", 0), Err(AmountError::MalformedDecimal));
}

#[test]
fn rejects_non_canonical_strings() {
    assert_eq!(parse("", 6), Err(AmountError::MalformedDecimal));
    assert_eq!(parse(".5", 6), Err(AmountError::MalformedDecimal));
    assert_eq!(parse("1.", 6), Err(AmountError::MalformedDecimal));
    assert_eq!(parse("01", 6), Err(AmountError::MalformedDecimal));
    assert_eq!(parse("0.10", 6), Err(AmountError::MalformedDecimal));
    assert_eq!(parse("1..2", 6), Err(AmountError::MalformedDecimal));
    assert_eq!(parse("1a", 6), Err(AmountError::MalformedDecimal));
    assert_eq!(parse("-1", 6), Err(AmountError::MalformedDecimal));
}

#[test]
fn rejects_out_of_range_values() {
    // thirty-nine integer digits exceed the protocol's range
    let s = "100000000000000000000000000000000000000";
    assert_eq!(parse(s, 0), Err(AmountError::ExceedsRange));
    // the largest representable amount is thirty-eight nines
    let m = "99999999999999999999999999999999999999";
    assert_eq!(parse(m, 0).unwrap().units, 99999999999999999999999999999999999999u128);
}

#[test]
fn renders_canonically() {
    assert_eq!(render(Amount::from_units(1_000).unwrap(), 6), "0.001");
    assert_eq!(render(Amount::from_units(0).unwrap(), 6), "0");
    assert_eq!(render(Amount::from_units(1_500_000).unwrap(), 6), "1.5");
    assert_eq!(render(Amount::from_units(42).unwrap(), 0), "42");
    assert_eq!(render(Amount::from_units(12_345_678).unwrap(), 6), "12.345678");
}

#[test]
fn round_trips_parse_then_render() {
    for s in ["0", "0.001", "1.5", "42", "12.345678", "0.000001", "999999.999999"] {
        let a = parse(s, 6).unwrap();
        assert_eq!(render(a, 6), s);
    }
}

#[test]
fn round_trips_render_then_parse() {
    for units in [0u128, 1, 999, 1_000, 123_456_789, 10u128.pow(30)] {
        let a = Amount::from_units(units).unwrap();
        for d in [0u8, 1, 6, 18] {
            let s = a.to_decimal_string(d);
            let b = Amount::from_decimal_string(&s, d).unwrap();
            assert_eq!(b.units, units);
        }
    }
}

#[test]
fn from_units_enforces_range() {
    assert!(Amount::from_units(u128::MAX).is_err());
}
