use btdt::util::humanbytes::{parse_bytes_from_str, IntErrorKind, ParserError};

#[test]
fn test_parse_bytes_from_str_without_unit_prefix() {
    assert_eq!(parse_bytes_from_str("0").unwrap(), 0);
    assert_eq!(parse_bytes_from_str("123").unwrap(), 123);
    assert_eq!(parse_bytes_from_str("27462").unwrap(), 27462);
}

#[test]
fn test_parse_bytes_from_str_with_metric_unit_prefix() {
    assert_eq!(parse_bytes_from_str("1k").unwrap(), 1_000);
    assert_eq!(parse_bytes_from_str("1K").unwrap(), 1_000);
    assert_eq!(parse_bytes_from_str("1M").unwrap(), 1_000_000);
    assert_eq!(parse_bytes_from_str("1G").unwrap(), 1_000_000_000);
    assert_eq!(parse_bytes_from_str("1T").unwrap(), 1_000_000_000_000);
    assert_eq!(parse_bytes_from_str("1P").unwrap(), 1_000_000_000_000_000);
    assert_eq!(
        parse_bytes_from_str("1E").unwrap(),
        1_000_000_000_000_000_000
    );
    assert_eq!(parse_bytes_from_str("1kB").unwrap(), 1_000);
    assert_eq!(parse_bytes_from_str("1KB").unwrap(), 1_000);
    assert_eq!(parse_bytes_from_str("1MB").unwrap(), 1_000_000);
    assert_eq!(parse_bytes_from_str("1GB").unwrap(), 1_000_000_000);
    assert_eq!(parse_bytes_from_str("1TB").unwrap(), 1_000_000_000_000);
    assert_eq!(parse_bytes_from_str("1PB").unwrap(), 1_000_000_000_000_000);
    assert_eq!(
        parse_bytes_from_str("1EB").unwrap(),
        1_000_000_000_000_000_000
    );
}

#[test]
fn test_parse_bytes_from_str_with_binary_unit_prefix() {
    assert_eq!(parse_bytes_from_str("1Ki").unwrap(), 1 << 10);
    assert_eq!(parse_bytes_from_str("1Mi").unwrap(), 1 << 20);
    assert_eq!(parse_bytes_from_str("1Gi").unwrap(), 1 << 30);
    assert_eq!(parse_bytes_from_str("1Ti").unwrap(), 1 << 40);
    assert_eq!(parse_bytes_from_str("1Pi").unwrap(), 1 << 50);
    assert_eq!(parse_bytes_from_str("1Ei").unwrap(), 1 << 60);
    assert_eq!(parse_bytes_from_str("1KiB").unwrap(), 1 << 10);
    assert_eq!(parse_bytes_from_str("1MiB").unwrap(), 1 << 20);
    assert_eq!(parse_bytes_from_str("1GiB").unwrap(), 1 << 30);
    assert_eq!(parse_bytes_from_str("1TiB").unwrap(), 1 << 40);
    assert_eq!(parse_bytes_from_str("1PiB").unwrap(), 1 << 50);
    assert_eq!(parse_bytes_from_str("1EiB").unwrap(), 1 << 60);
}

#[test]
fn test_parse_bytes_from_str_ignore_whitespace_between_and_around_components() {
    assert_eq!(parse_bytes_from_str(" \t 1  k \n ").unwrap(), 1_000);
}

#[test]
fn test_parse_bytes_from_str_supports_multiple_components() {
    assert_eq!(
        parse_bytes_from_str("1Gi 200Mi").unwrap(),
        1024 * 1024 * 1024 + 200 * 1024 * 1024
    );
    assert_eq!(
        parse_bytes_from_str("1K 200Mi").unwrap(),
        1000 + 200 * 1024 * 1024
    );
    assert_eq!(parse_bytes_from_str("1K 42").unwrap(), 1000 + 42);
    assert_eq!(parse_bytes_from_str("10 20k").unwrap(), 10 + 20 * 1000);
}

#[test]
fn parse_bytes_reports_only_whitespace() {
    assert!(matches!(
        parse_bytes_from_str("  \t\n "),
        Err(ParserError::OnlyWhitespace)
    ));
    assert!(matches!(
        parse_bytes_from_str(""),
        Err(ParserError::OnlyWhitespace)
    ));
    assert!(matches!(
        parse_bytes_from_str("\u{a0}\u{2003}"),
        Err(ParserError::OnlyWhitespace)
    ));
}

#[test]
fn parse_bytes_trims_unicode_whitespace() {
    assert_eq!(parse_bytes_from_str("\u{a0}1k\u{2003}").unwrap(), 1_000);
}

#[test]
fn parse_bytes_reports_invalid_unit_prefix() {
    match parse_bytes_from_str("1X") {
        Err(ParserError::InvalidUnitPrefix(prefix)) => assert_eq!(prefix, "X"),
        other => panic!("unexpected result: {:?}", other),
    }
    match parse_bytes_from_str("5 kiB") {
        Err(ParserError::InvalidUnitPrefix(prefix)) => assert_eq!(prefix, "kiB"),
        other => panic!("unexpected result: {:?}", other),
    }
    match parse_bytes_from_str("1BB") {
        Err(ParserError::InvalidUnitPrefix(prefix)) => assert_eq!(prefix, "BB"),
        other => panic!("unexpected result: {:?}", other),
    }
}

#[test]
fn parse_bytes_reports_missing_number() {
    assert!(matches!(
        parse_bytes_from_str("k"),
        Err(ParserError::ParseIntError(IntErrorKind::Empty))
    ));
    assert!(matches!(
        parse_bytes_from_str("1k -3"),
        Err(ParserError::ParseIntError(IntErrorKind::Empty))
    ));
}

#[test]
fn parse_bytes_reports_overflow() {
    assert!(matches!(
        parse_bytes_from_str("18446744073709551616"),
        Err(ParserError::ParseIntError(IntErrorKind::PosOverflow))
    ));
    assert!(matches!(
        parse_bytes_from_str("16Ei"),
        Err(ParserError::ParseIntError(IntErrorKind::PosOverflow))
    ));
    assert!(matches!(
        parse_bytes_from_str("15Ei 1Ei"),
        Err(ParserError::ParseIntError(IntErrorKind::PosOverflow))
    ));
    assert_eq!(
        parse_bytes_from_str("18446744073709551615B").unwrap(),
        u64::MAX
    );
    assert_eq!(parse_bytes_from_str("1B").unwrap(), 1);
}
