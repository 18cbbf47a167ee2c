use shogi_csa::csa::{detect_version, Version};
use shogi_csa::parse_csa;
use shogi_csa::value::Action;

#[test]
fn test_detect_version_v2() {
    assert_eq!(detect_version("V2\nPI\n+\n"), Some(Version::V2));
}

#[test]
fn test_detect_version_v2_1() {
    assert_eq!(detect_version("V2.1\nPI\n+\n"), Some(Version::V2_1));
}

#[test]
fn test_detect_version_v2_2() {
    assert_eq!(detect_version("V2.2\nPI\n+\n"), Some(Version::V2_2));
}

#[test]
fn test_detect_version_v3() {
    assert_eq!(detect_version("V3.0\nPI\n+\n"), Some(Version::V3));
}

#[test]
fn test_detect_version_v3_with_encoding() {
    assert_eq!(
        detect_version("'CSA encoding=UTF-8\nV3.0\nPI\n+\n"),
        Some(Version::V3)
    );
}

#[test]
fn test_detect_version_no_version() {
    assert_eq!(detect_version("PI\n+\n"), None);
}

#[test]
fn test_tsumi_without_trailing_newline() {
    // A terminal event at end of input without a line terminator still
    // yields a final move record.
    let csa = "V2.2\nPI\n+\n+7776FU\n%TSUMI";
    let result = parse_csa(csa);
    assert!(result.is_ok(), "Failed to parse CSA: {:?}", result.err());
    let record = result.unwrap();
    assert_eq!(record.moves.len(), 2, "Expected 2 moves (1 normal + 1 TSUMI)");
    assert!(
        matches!(record.moves[1].action, Action::Tsumi),
        "Expected Action::Tsumi, got {:?}",
        record.moves[1].action
    );
}

#[test]
fn test_tsumi_with_trailing_newline() {
    // The same input with a trailing newline reads identically.
    let csa = "V2.2\nPI\n+\n+7776FU\n%TSUMI\n";
    let result = parse_csa(csa);
    assert!(result.is_ok(), "Failed to parse CSA: {:?}", result.err());
    let record = result.unwrap();
    assert_eq!(record.moves.len(), 2, "Expected 2 moves (1 normal + 1 TSUMI)");
    assert!(
        matches!(record.moves[1].action, Action::Tsumi),
        "Expected Action::Tsumi, got {:?}",
        record.moves[1].action
    );
}

#[test]
fn test_unknown_dialect_reports_error() {
    assert!(parse_csa("PI\n+\n").is_err());
    assert!(parse_csa("V9.9\nPI\n+\n").is_err());
    assert!(parse_csa("").is_err());
}

#[test]
fn test_detect_skips_blank_and_comment_lines() {
    assert_eq!(detect_version("'a comment\n\n  \nV2.1\n"), Some(Version::V2_1));
    assert_eq!(detect_version("'comment\nnot a version\nV2\n"), None);
}
