use qum::datetime::{format_timestamp, parse_timestamp, DateTime, ParseError};

#[test]
fn parse_canonical_text() {
    let dt = parse_timestamp("2023-01-15T00:00:00.000Z").expect("canonical text must parse");
    assert_eq!(
        dt,
        DateTime { year: 2023, month: 1, day: 15, hour: 0, minute: 0, second: 0, milli: 0 }
    );
}

#[test]
fn parse_accepts_shorter_fractions() {
    let no_frac = parse_timestamp("2022-12-01T05:06:07Z").expect("no fraction");
    assert_eq!(no_frac.second, 7);
    assert_eq!(no_frac.milli, 0);
    let one = parse_timestamp("2022-12-01T05:06:07.5Z").expect("one digit");
    assert_eq!(one.milli, 500);
    let two = parse_timestamp("2022-12-01T05:06:07.51Z").expect("two digits");
    assert_eq!(two.milli, 510);
    let three = parse_timestamp("2022-12-01T05:06:07.512Z").expect("three digits");
    assert_eq!(three.milli, 512);
}

#[test]
fn parse_rejects_malformed_text() {
    assert_eq!(parse_timestamp(""), Err(ParseError::Malformed));
    assert_eq!(parse_timestamp("2022-12-01"), Err(ParseError::Malformed));
    assert_eq!(parse_timestamp("2022-12-01 05:00:00.000Z"), Err(ParseError::Malformed));
    assert_eq!(parse_timestamp("2022-12-01T05:00:00.000"), Err(ParseError::Malformed));
    assert_eq!(parse_timestamp("2022-13-01T05:00:00.000Z"), Err(ParseError::Malformed));
    assert_eq!(parse_timestamp("2022-00-01T05:00:00.000Z"), Err(ParseError::Malformed));
    assert_eq!(parse_timestamp("2022-04-31T05:00:00.000Z"), Err(ParseError::Malformed));
    assert_eq!(parse_timestamp("2022-12-01T24:00:00.000Z"), Err(ParseError::Malformed));
    assert_eq!(parse_timestamp("2022-12-01T05:60:00.000Z"), Err(ParseError::Malformed));
    assert_eq!(parse_timestamp("2022-12-01T05:00:60.000Z"), Err(ParseError::Malformed));
    assert_eq!(parse_timestamp("2022-12-01T05:00:00.0000Z"), Err(ParseError::Malformed));
    assert_eq!(parse_timestamp("2O22-12-01T05:00:00.000Z"), Err(ParseError::Malformed));
}

#[test]
fn parse_checks_leap_years() {
    assert!(parse_timestamp("2024-02-29T00:00:00.000Z").is_ok());
    assert_eq!(parse_timestamp("2023-02-29T00:00:00.000Z"), Err(ParseError::Malformed));
    assert_eq!(parse_timestamp("1900-02-29T00:00:00.000Z"), Err(ParseError::Malformed));
    assert!(parse_timestamp("2000-02-29T00:00:00.000Z").is_ok());
}

#[test]
fn format_is_canonical() {
    let dt = DateTime { year: 2023, month: 1, day: 15, hour: 0, minute: 0, second: 0, milli: 0 };
    assert_eq!(format_timestamp(&dt), "2023-01-15T00:00:00.000Z");
    let dt2 = DateTime { year: 987, month: 12, day: 31, hour: 23, minute: 59, second: 58, milli: 7 };
    assert_eq!(format_timestamp(&dt2), "0987-12-31T23:59:58.007Z");
}

#[test]
fn format_then_parse_round_trips() {
    let dt = DateTime { year: 2022, month: 6, day: 1, hour: 5, minute: 30, second: 9, milli: 250 };
    let text = format_timestamp(&dt);
    assert_eq!(parse_timestamp(&text), Ok(dt));
    let short = parse_timestamp("2022-06-01T05:30:09.25Z").expect("two-digit fraction");
    assert_eq!(format_timestamp(&short), "2022-06-01T05:30:09.250Z");
}

#[test]
fn chronological_order_by_key() {
    let early = parse_timestamp("2022-01-01T00:00:00.000Z").unwrap();
    let late = parse_timestamp("2022-01-01T00:00:00.001Z").unwrap();
    assert!(early.le(&late));
    assert!(!late.le(&early));
    assert!(early.le(&early));
    assert!(early.timestamp_key() < late.timestamp_key());
}
