use nyaasi_scraper::size_parser::{parse, SizeError};

#[test]
fn test_integer_amount() {
    assert_eq!(Ok(8192), parse("8 KiB"));
}

#[test]
fn test_floating_point_amount() {
    assert_eq!(Ok(1536), parse("1.5 KiB"));
}

#[test]
fn test_empty() {
    assert_eq!(
        Err("Empty size string".to_owned()),
        parse("").map_err(|e| e.message())
    );
}

#[test]
fn test_invalid_float() {
    assert_eq!(
        Err("Failed to parse abc as f64".to_owned()),
        parse("abc KiB").map_err(|e| e.message())
    );
}

#[test]
fn test_no_suffix() {
    assert_eq!(
        Err("Unable to find size suffix".to_owned()),
        parse("1.2").map_err(|e| e.message())
    );
}

#[test]
fn test_invalid_suffix() {
    assert_eq!(
        Err("Unable to find suffix bits in suffixes list".to_owned()),
        parse("1.2 bits").map_err(|e| e.message())
    );
}

#[test]
fn test_all_suffixes() {
    assert_eq!(Ok(8), parse("8 B"));
    assert_eq!(Ok(2 * 1024 * 1024), parse("2 MiB"));
    assert_eq!(Ok(1024 * 1024 * 1024), parse("1 GiB"));
    assert_eq!(Ok(1u64 << 40), parse("1 TiB"));
    assert_eq!(Ok(1u64 << 50), parse("1 PiB"));
    assert_eq!(Ok(1u64 << 60), parse("1 EiB"));
}

#[test]
fn test_rounds_toward_zero() {
    assert_eq!(Ok(1), parse("1.9 B"));
    assert_eq!(Ok(0), parse("0.9 B"));
    assert_eq!(Ok(1331), parse("1.3 KiB"));
}

#[test]
fn test_fractional_only_magnitude() {
    assert_eq!(Ok(512), parse(".5 KiB"));
    assert_eq!(Ok(512), parse("0.5 KiB"));
}

#[test]
fn test_saturates_at_max() {
    assert_eq!(Ok(u64::MAX), parse("99999999999 EiB"));
}

#[test]
fn test_error_variants() {
    assert!(matches!(parse(""), Err(SizeError::EmptyInput)));
    assert!(matches!(parse("x KiB"), Err(SizeError::InvalidMagnitude(_))));
    assert!(matches!(parse("7"), Err(SizeError::MissingSuffix)));
    assert!(matches!(parse("7 kb"), Err(SizeError::UnknownSuffix(_))));
    assert!(matches!(parse("1e3 KiB"), Err(SizeError::InvalidMagnitude(_))));
    assert!(matches!(parse("1.2.3 KiB"), Err(SizeError::InvalidMagnitude(_))));
}

#[test]
fn test_extra_tokens_are_ignored() {
    assert_eq!(Ok(8192), parse("  8 KiB extra"));
}
