//! Memory sizes written for people: `128mb`, `2 GB`, `512kb` or a plain byte count.

use fvm::config::{memory_size_from_u64, parse_human_readable_size};

#[test]
fn parses_human_readable_memory_sizes() {
    let tests = vec![
        ("128mb", 128 * 1024 * 1024),
        ("2gb", 2 * 1024 * 1024 * 1024),
        ("512kb", 512 * 1024),
        ("256mb", 256 * 1024 * 1024),
    ];
    for (text, expected) in tests {
        assert_eq!(parse_human_readable_size(text).expect("size should parse"), expected);
    }
}

#[test]
fn parses_human_readable_memory_sizes_with_variants() {
    let tests = vec![
        ("128 mb", 128 * 1024 * 1024),
        ("2 GB", 2 * 1024 * 1024 * 1024),
        ("512 KB", 512 * 1024),
    ];
    for (text, expected) in tests {
        assert_eq!(parse_human_readable_size(text).expect("size should parse"), expected);
    }
}

#[test]
fn parses_plain_and_suffixed_byte_counts() {
    assert_eq!(parse_human_readable_size("16777216").unwrap(), 16 * 1024 * 1024);
    assert_eq!(parse_human_readable_size("  42 bytes ").unwrap(), 42);
    assert_eq!(parse_human_readable_size("+7b").unwrap(), 7);
    assert_eq!(parse_human_readable_size("3k").unwrap(), 3072);
    assert_eq!(parse_human_readable_size("268435456").unwrap(), 268435456);
}

#[test]
fn rejects_unknown_suffixes_bad_numbers_and_oversized_values() {
    assert!(parse_human_readable_size("12xb").is_err());
    assert!(parse_human_readable_size("mb").is_err());
    assert!(parse_human_readable_size("1.5gb").is_err());
    assert!(parse_human_readable_size("4gb").is_err());
    assert!(parse_human_readable_size("1tb").is_err());
    assert!(parse_human_readable_size("4294967296").is_err());
    assert_eq!(parse_human_readable_size("4294967295").unwrap(), u32::MAX);
}

#[test]
fn numeric_sizes_must_fit_32_bits() {
    assert_eq!(memory_size_from_u64(16777216).unwrap(), 16777216);
    assert_eq!(memory_size_from_u64(u32::MAX as u64).unwrap(), u32::MAX);
    assert!(memory_size_from_u64(u32::MAX as u64 + 1).is_err());
}
