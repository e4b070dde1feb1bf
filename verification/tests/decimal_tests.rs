use mcs_binary::decimal::{format_fixed, parse_fixed};

#[test]
fn format_whole_number() {
    assert_eq!(format_fixed(1_010_000), b"101.0000".to_vec());
    assert_eq!(format_fixed(0), b"0.0000".to_vec());
}

#[test]
fn format_fraction_and_sign() {
    assert_eq!(format_fixed(-35_000), b"-3.5000".to_vec());
    assert_eq!(format_fixed(12_345), b"1.2345".to_vec());
    assert_eq!(format_fixed(5), b"0.0005".to_vec());
    assert_eq!(format_fixed(i64::MIN), b"-922337203685477.5808".to_vec());
}

#[test]
fn parse_plain_forms() {
    assert_eq!(parse_fixed(b"101.0"), Some(1_010_000));
    assert_eq!(parse_fixed(b"100"), Some(1_000_000));
    assert_eq!(parse_fixed(b"-3.5"), Some(-35_000));
    assert_eq!(parse_fixed(b"0.0005"), Some(5));
}

// fraction digits past the fourth are truncated towards zero
#[test]
fn parse_truncates_long_fractions() {
    assert_eq!(parse_fixed(b"43250.12000000"), Some(432_501_200));
    assert_eq!(parse_fixed(b"1.23456789"), Some(12_345));
    assert_eq!(parse_fixed(b"-1.23456789"), Some(-12_345));
}

#[test]
fn parse_rejects_malformed() {
    assert_eq!(parse_fixed(b""), None);
    assert_eq!(parse_fixed(b"-"), None);
    assert_eq!(parse_fixed(b"abc"), None);
    assert_eq!(parse_fixed(b"1."), None);
    assert_eq!(parse_fixed(b".5"), None);
    assert_eq!(parse_fixed(b"1.2.3"), None);
    assert_eq!(parse_fixed(b"1,5"), None);
    assert_eq!(parse_fixed(b"1 "), None);
}

#[test]
fn parse_rejects_out_of_range() {
    // the scaled magnitude must fit a signed 64-bit count of ten-thousandths
    assert_eq!(parse_fixed(b"922337203685477.5807"), Some(i64::MAX));
    assert_eq!(parse_fixed(b"922337203685477.5808"), None);
    assert_eq!(parse_fixed(b"-922337203685477.5807"), Some(-i64::MAX));
    assert_eq!(parse_fixed(b"9223372036854775808"), None);
}

// the canonical encoding reads back to the value it was made from
#[test]
fn parse_inverts_format() {
    for v in [0i64, 1, -1, 12_345, -12_345, 1_010_000, i64::MAX, i64::MIN + 1] {
        assert_eq!(parse_fixed(&format_fixed(v)), Some(v));
    }
}
