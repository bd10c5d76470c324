use proompt::size::format_file_size;
use proompt::size::parse_file_size;

#[test]
fn test_parse_file_size() {
    assert_eq!(parse_file_size("1024").unwrap(), 1024);
    assert_eq!(parse_file_size("1KB").unwrap(), 1024);
    assert_eq!(parse_file_size("1MB").unwrap(), 1024 * 1024);
    assert_eq!(parse_file_size("1GB").unwrap(), 1024 * 1024 * 1024);
    assert_eq!(parse_file_size("2MB").unwrap(), 2 * 1024 * 1024);
    assert!(parse_file_size("invalid").is_err());
    assert!(parse_file_size("1XB").is_err());
}

#[test]
fn test_format_file_size() {
    assert_eq!(format_file_size(512), "512B");
    assert_eq!(format_file_size(1024), "1.0KB");
    assert_eq!(format_file_size(1536), "1.5KB");
    assert_eq!(format_file_size(1024 * 1024), "1.0MB");
    assert_eq!(format_file_size(1024 * 1024 * 1024), "1.0GB");
}

#[test]
fn parse_is_case_insensitive_and_trims() {
    assert_eq!(parse_file_size("  2mb  ").unwrap(), 2 * 1024 * 1024);
    assert_eq!(parse_file_size("3kb").unwrap(), 3 * 1024);
    assert_eq!(parse_file_size("4Gb").unwrap(), 4 * 1024 * 1024 * 1024);
    assert_eq!(parse_file_size("1024B").unwrap(), 1024);
    assert_eq!(parse_file_size("1024b").unwrap(), 1024);
}

#[test]
fn parse_accepts_each_unit() {
    assert_eq!(parse_file_size("7").unwrap(), 7);
    assert_eq!(parse_file_size("7B").unwrap(), 7);
    assert_eq!(parse_file_size("7KB").unwrap(), 7 * 1024);
    assert_eq!(parse_file_size("7MB").unwrap(), 7 * 1024 * 1024);
    assert_eq!(parse_file_size("7GB").unwrap(), 7 * 1024 * 1024 * 1024);
    assert_eq!(parse_file_size("0").unwrap(), 0);
}

#[test]
fn parse_rejects_malformed_input() {
    assert!(parse_file_size("").is_err());
    assert!(parse_file_size("B").is_err());
    assert!(parse_file_size("KB").is_err());
    assert!(parse_file_size("1.5MB").is_err());
    assert!(parse_file_size("-1KB").is_err());
    assert!(parse_file_size("12 34").is_err());
    assert!(parse_file_size("99999999999999999999999").is_err());
    assert!(parse_file_size("99999999999999999GB").is_err());
}

#[test]
fn parse_error_carries_normalized_input() {
    let err = parse_file_size("  1xb ").unwrap_err();
    assert_eq!(err, "Invalid file size format: 1XB");
    let err = parse_file_size("invalid").unwrap_err();
    assert_eq!(err, "Invalid file size format: INVALID");
}

#[test]
fn parse_error_uppercases_beyond_ascii() {
    let err = parse_file_size("1äb").unwrap_err();
    assert_eq!(err, "Invalid file size format: 1ÄB");
}

#[test]
fn parse_is_invariant_under_normalization() {
    assert_eq!(
        parse_file_size(" 2mb ").unwrap(),
        parse_file_size("2MB").unwrap()
    );
    assert_eq!(
        parse_file_size("1äb").unwrap_err(),
        parse_file_size("1ÄB").unwrap_err()
    );
    assert_eq!(
        parse_file_size("  1xb ").unwrap_err(),
        parse_file_size("1XB").unwrap_err()
    );
}

#[test]
fn format_thresholds_are_binary() {
    assert_eq!(format_file_size(0), "0B");
    assert_eq!(format_file_size(1023), "1023B");
    assert_eq!(format_file_size(2048), "2.0KB");
    assert_eq!(format_file_size(1024 * 1024 - 1), "1024.0KB");
    assert_eq!(format_file_size(3 * 1024 * 1024 / 2), "1.5MB");
}
