use gsnake_levels::migration::{parse_string_id, IdError};

fn expect_ok(id: &str) -> u32 {
    match parse_string_id(id) {
        Ok(parsed) => parsed,
        Err(err) => panic!("expected Ok result, got error: {}", err.message()),
    }
}

fn expect_err(id: &str) -> IdError {
    match parse_string_id(id) {
        Ok(parsed) => panic!("expected error, got Ok({parsed})"),
        Err(err) => err,
    }
}

#[test]
fn test_parse_valid_id() {
    assert_eq!(expect_ok("1234567890-g36bwe"), 1234567890);
}

#[test]
fn test_parse_valid_id_small_timestamp() {
    assert_eq!(expect_ok("12345-abc"), 12345);
}

#[test]
fn test_parse_valid_id_max_u32() {
    assert_eq!(expect_ok("4294967295-test"), u32::MAX);
}

#[test]
fn test_parse_invalid_no_hyphen() {
    let err = expect_err("1769977122223g36bwe");
    assert!(err.message().contains("Invalid ID format"));
}

#[test]
fn test_parse_invalid_multiple_hyphens() {
    let err = expect_err("1769977122223-g36-bwe");
    assert!(err.message().contains("Invalid ID format"));
}

#[test]
fn test_parse_invalid_non_numeric_timestamp() {
    let err = expect_err("abc123-suffix");
    assert!(err.message().contains("Invalid timestamp"));
}

#[test]
fn test_parse_invalid_empty_timestamp() {
    let err = expect_err("-suffix");
    assert!(err.message().contains("Invalid timestamp"));
}

#[test]
fn test_parse_invalid_timestamp_exceeds_u32() {
    let err = expect_err("4294967296-test");
    assert!(err.message().contains("exceeds u32::MAX"));
}

#[test]
fn test_parse_invalid_large_timestamp() {
    let err = expect_err("999999999999999-test");
    assert!(err.message().contains("exceeds u32::MAX"));
}

#[test]
fn test_parse_invalid_negative_timestamp() {
    let result = parse_string_id("-123-suffix");
    assert!(result.is_err());
}

#[test]
fn test_parse_timestamp_from_actual_level_file() {
    let err = expect_err("1769977122223-g36bwe");
    assert!(err.message().contains("exceeds u32::MAX"));
}

#[test]
fn parse_string_id_reports_each_error_kind() {
    assert!(matches!(expect_err("a-b-c"), IdError::InvalidFormat { .. }));
    assert!(matches!(expect_err("abc-def"), IdError::InvalidTimestamp { .. }));
    assert!(matches!(expect_err("4294967296-test"), IdError::ExceedsMaximum { .. }));
    assert_eq!(
        expect_err("4294967296-test").message(),
        "Timestamp 4294967296 exceeds u32::MAX (4294967295)"
    );
    assert_eq!(
        expect_err("abc-def").message(),
        "Invalid timestamp: 'abc' is not a valid number"
    );
}

#[test]
fn parse_string_id_accepts_a_plus_sign_and_huge_numbers_exceed() {
    assert_eq!(expect_ok("+42-x"), 42);
    assert!(matches!(
        expect_err("99999999999999999999999-x"),
        IdError::ExceedsMaximum { .. }
    ));
    assert!(matches!(expect_err("+-x"), IdError::InvalidTimestamp { .. }));
    assert!(matches!(expect_err("+a-x"), IdError::InvalidTimestamp { .. }));
}

#[test]
fn exceeds_message_prints_the_value() {
    assert_eq!(
        expect_err("0004294967296-x").message(),
        "Timestamp 4294967296 exceeds u32::MAX (4294967295)"
    );
    assert_eq!(
        expect_err("+04294967296-x").message(),
        "Timestamp 4294967296 exceeds u32::MAX (4294967295)"
    );
}
