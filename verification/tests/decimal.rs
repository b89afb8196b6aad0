use ksa64_host::decimal::{identity, parse_scaled, CompileError};

#[test]
fn exact_decimal_parser_rounds_without_binary_float() {
    assert_eq!(parse_scaled("0.01", 18).unwrap(), 2_621);
    assert_eq!(parse_scaled("-0.5", 13).unwrap(), -4_096);
    assert!(parse_scaled("1e3", 16).is_err());
}

#[test]
fn quantization_is_stable_at_many_scales() {
    assert_eq!(parse_scaled("0.01", 18), Ok(2_621));
    assert_eq!(parse_scaled("1", 28), Ok(268_435_456));
    assert_eq!(parse_scaled("  2.5\n", 1), Ok(5));
    assert_eq!(parse_scaled("0.25", 1), Ok(1));
    assert_eq!(parse_scaled("-0.25", 1), Ok(-1));
    assert_eq!(parse_scaled("7.", 0), Ok(7));
    assert_eq!(parse_scaled("\u{3000}3\u{a0}", 2), Ok(12));
}

#[test]
fn malformed_decimals_are_refused() {
    for text in ["", " ", "+1", "1E2", "1.2.3", ".5", "-", "1a", "0x10", "1.0000000000000000000000000000000"] {
        assert_eq!(parse_scaled(text, 4), Err(CompileError::Decimal), "{text}");
    }
    assert_eq!(
        parse_scaled("999999999999999999999999999999999999999999", 0),
        Err(CompileError::Decimal)
    );
}

#[test]
fn values_that_do_not_fit_are_out_of_range() {
    assert_eq!(parse_scaled("2147483648", 0), Err(CompileError::Range));
    assert_eq!(parse_scaled("-2147483648", 0), Ok(i32::MIN));
    assert_eq!(parse_scaled("1", 31), Err(CompileError::Range));
    assert_eq!(parse_scaled("170141183460469231731687303715884105727", 1), Err(CompileError::Range));
    assert_eq!(parse_scaled("0", 127), Ok(0));
    assert_eq!(parse_scaled("2", 127), Err(CompileError::Range));
}

#[test]
fn identities_hash_ascii_text() {
    assert_eq!(identity("a"), Ok(0xe40c_292c));
    assert_eq!(identity(""), Err(CompileError::Identity));
    assert_eq!(identity("é"), Err(CompileError::Identity));
}
