use maelstrom_rust::message::ErrorCode;
use maelstrom_rust::text::{i64_to_decimal, mismatch_message, missing_key_message, u64_to_decimal};

#[test]
fn decimal_of_small_and_large_numbers() {
    assert_eq!(u64_to_decimal(0), "0");
    assert_eq!(u64_to_decimal(7), "7");
    assert_eq!(u64_to_decimal(10), "10");
    assert_eq!(u64_to_decimal(1234567890), "1234567890");
    assert_eq!(u64_to_decimal(u64::MAX), "18446744073709551615");
}

#[test]
fn decimal_of_signed_numbers() {
    assert_eq!(i64_to_decimal(0), "0");
    assert_eq!(i64_to_decimal(-42), "-42");
    assert_eq!(i64_to_decimal(42), "42");
    assert_eq!(i64_to_decimal(i64::MIN), "-9223372036854775808");
    assert_eq!(i64_to_decimal(i64::MAX), "9223372036854775807");
}

#[test]
fn decimal_matches_std_formatting() {
    for v in [0u64, 1, 9, 99, 100, 101, 65535, 4294967296, 999999999999] {
        assert_eq!(u64_to_decimal(v), v.to_string());
    }
    for v in [-1i64, -10, -99999, 5, i64::MIN + 1] {
        assert_eq!(i64_to_decimal(v), v.to_string());
    }
}

#[test]
fn error_texts() {
    assert_eq!(missing_key_message(7), "key '7' does not exist");
    assert_eq!(mismatch_message(3, -1), "current value 3 does not match 'from' value -1");
}

#[test]
fn error_code_numbers() {
    assert_eq!(ErrorCode::Crash.code(), 14);
    assert_eq!(ErrorCode::TemporarilyUnavailable.code(), 11);
    assert_eq!(ErrorCode::KeyDoesNotExist.code(), 20);
    assert_eq!(ErrorCode::PreconditionFailed.code(), 22);
}

#[test]
fn error_codes_from_numbers() {
    assert_eq!(ErrorCode::from_code(14), Some(ErrorCode::Crash));
    assert_eq!(ErrorCode::from_code(11), Some(ErrorCode::TemporarilyUnavailable));
    assert_eq!(ErrorCode::from_code(20), Some(ErrorCode::KeyDoesNotExist));
    assert_eq!(ErrorCode::from_code(22), Some(ErrorCode::PreconditionFailed));
    assert_eq!(ErrorCode::from_code(0), None);
    assert_eq!(ErrorCode::from_code(21), None);
}
