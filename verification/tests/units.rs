use docli::error::{DocliError, ErrorCode};
use docli::units::{parse_dxa, parse_emu};

#[test]
fn parses_inches_to_dxa() {
    assert_eq!(parse_dxa("1in").unwrap(), 1440);
}

#[test]
fn parses_centimeters_to_dxa() {
    assert_eq!(parse_dxa("2.54cm").unwrap(), 1440);
}

#[test]
fn parses_millimeters_to_dxa() {
    assert_eq!(parse_dxa("25.4mm").unwrap(), 1440);
}

#[test]
fn parses_points_to_dxa() {
    assert_eq!(parse_dxa("12pt").unwrap(), 240);
}

#[test]
fn parses_pixels_to_dxa() {
    assert_eq!(parse_dxa("96px").unwrap(), 1440);
}

#[test]
fn parses_inches_to_emu() {
    assert_eq!(parse_emu("1in").unwrap(), 914_400);
}

#[test]
fn bare_number_is_taken_as_is() {
    assert_eq!(parse_dxa("720").unwrap(), 720);
    assert_eq!(parse_dxa("  1.5in ").unwrap(), 2160);
}

#[test]
fn half_inch_in_emu_rounds_exactly() {
    assert_eq!(parse_emu("0.5in").unwrap(), 457_200);
    assert_eq!(parse_emu("1cm").unwrap(), 360_000);
}

#[test]
fn empty_value_is_rejected() {
    let err = parse_dxa("   ").unwrap_err();
    assert_eq!(err.code(), ErrorCode::InvalidSpec);
    assert_eq!(err.message(), "unit value cannot be empty");
}

#[test]
fn unknown_unit_is_rejected() {
    match parse_dxa("3furlongs").unwrap_err() {
        DocliError::InvalidSpec { message } => assert_eq!(message, "unsupported unit: 3furlongs"),
        other => panic!("unexpected error {other:?}"),
    }
}

#[test]
fn bad_number_is_rejected() {
    match parse_dxa("1.2.3in").unwrap_err() {
        DocliError::InvalidSpec { message } => assert_eq!(message, "invalid numeric value: 1.2.3in"),
        other => panic!("unexpected error {other:?}"),
    }
}
