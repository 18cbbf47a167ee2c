use shogi_csa::v3::parse;
use shogi_csa::value::Duration;

#[test]
fn mod_test_parse_simple() {
    let csa = "V3.0\nPI\n+\n+2726FU\n";
    let result = parse(csa);
    assert!(result.is_ok(), "Failed: {:?}", result);
}

#[test]
fn test_parse_with_milliseconds() {
    let csa = "V3.0\nPI\n+\n+2726FU\nT15.123\n";
    let result = parse(csa);
    assert!(result.is_ok(), "Failed: {:?}", result);
    let record = result.unwrap();
    assert_eq!(record.moves[0].time, Some(Duration::from_millis(15123)));
}

#[test]
fn test_fraction_digit_scaling() {
    // One fractional digit counts tenths, two hundredths, three
    // thousandths.
    let r = parse("V3.0\nPI\n+\n+2726FU\nT15.1\n").unwrap();
    assert_eq!(r.moves[0].time, Some(Duration::from_millis(15100)));
    let r = parse("V3.0\nPI\n+\n+2726FU\nT15.12\n").unwrap();
    assert_eq!(r.moves[0].time, Some(Duration::from_millis(15120)));
    let r = parse("V3.0\nPI\n+\n+2726FU\nT15.123\n").unwrap();
    assert_eq!(r.moves[0].time, Some(Duration::from_millis(15123)));
}

#[test]
fn test_fraction_rejected_in_older_dialect() {
    // The fractional suffix belongs to the newest dialect alone.
    assert!(shogi_csa::v2_2::parse("V2.2\nPI\n+\n+2726FU\nT15.1\n").is_err());
    assert!(shogi_csa::v2_2::parse("V2.2\nPI\n+\n+2726FU\nT15\n").is_ok());
}

#[test]
fn test_fraction_needs_one_to_three_digits() {
    assert!(parse("V3.0\nPI\n+\n+2726FU\nT15.\n").is_err());
    assert!(parse("V3.0\nPI\n+\n+2726FU\nT15.1234\n").is_err());
}
