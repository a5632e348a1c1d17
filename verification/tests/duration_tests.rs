use fondue::{parse_duration, DurationParseError};

#[test]
fn test_basic_units() {
    assert_eq!(parse_duration("30s").unwrap(), 30_000_000_000);
    assert_eq!(parse_duration("5m").unwrap(), 300_000_000_000);
    assert_eq!(parse_duration("2h").unwrap(), 7_200_000_000_000);
    assert_eq!(parse_duration("1d").unwrap(), 86_400_000_000_000);
    assert_eq!(parse_duration("200ms").unwrap(), 200_000_000);
    assert_eq!(parse_duration("500us").unwrap(), 500_000);
    assert_eq!(parse_duration("100ns").unwrap(), 100);
}

#[test]
fn test_fractional_values() {
    assert_eq!(parse_duration("1.5s").unwrap(), 1_500_000_000);
    assert_eq!(parse_duration("0.5m").unwrap(), 30_000_000_000);
    assert_eq!(parse_duration("1.25h").unwrap(), 4_500_000_000_000);
}

#[test]
fn test_case_and_whitespace() {
    assert_eq!(parse_duration(" 10 S ").unwrap(), 10_000_000_000);
    assert_eq!(parse_duration("  2   hr ").unwrap(), 7_200_000_000_000);
}

#[test]
fn test_invalid_inputs() {
    assert_eq!(parse_duration("").unwrap_err(), DurationParseError::EmptyString);
    assert_eq!(parse_duration("ms").unwrap_err(), DurationParseError::MissingUnit);
    assert_eq!(parse_duration("abc").unwrap_err(), DurationParseError::MissingUnit);
    assert_eq!(
        parse_duration("100xy").unwrap_err(),
        DurationParseError::UnknownUnit("xy".to_string())
    );
    assert_eq!(parse_duration("100").unwrap_err(), DurationParseError::MissingUnit);
    assert_eq!(
        parse_duration("-10s").unwrap_err(),
        DurationParseError::InvalidNumber("-10".to_string())
    );
}

#[test]
fn test_fractional_coarse_units_round_first() {
    // sub-unit precision is dropped for the coarse units: the count of
    // units is rounded before conversion
    assert_eq!(parse_duration("1.4us").unwrap(), 1_000);
    assert_eq!(parse_duration("1.5us").unwrap(), 2_000);
    assert_eq!(parse_duration("2.5ms").unwrap(), 3_000_000);
}

#[test]
fn test_plus_sign_and_bare_dot() {
    assert_eq!(parse_duration("+5s").unwrap(), 5_000_000_000);
    assert_eq!(parse_duration("5.s").unwrap(), 5_000_000_000);
    assert_eq!(parse_duration(".5s").unwrap(), 500_000_000);
    assert_eq!(
        parse_duration("+s").unwrap_err(),
        DurationParseError::InvalidNumber("+".to_string())
    );
    assert_eq!(
        parse_duration(".s").unwrap_err(),
        DurationParseError::InvalidNumber(".".to_string())
    );
    assert_eq!(
        parse_duration("1.2.3s").unwrap_err(),
        DurationParseError::InvalidNumber("1.2.3".to_string())
    );
}

#[test]
fn test_unit_spellings() {
    assert_eq!(parse_duration("1 minute").unwrap(), 60_000_000_000);
    assert_eq!(parse_duration("3 seconds").unwrap(), 3_000_000_000);
    assert_eq!(parse_duration("2 DAYS").unwrap(), 172_800_000_000_000);
    assert_eq!(parse_duration("7 Hours").unwrap(), 25_200_000_000_000);
    assert_eq!(parse_duration("1 nanosecond").unwrap(), 1);
}

#[test]
fn test_saturates_at_bound() {
    // far beyond what fits in nanoseconds
    assert_eq!(parse_duration("99999999999999999999d").unwrap(), u64::MAX);
}
