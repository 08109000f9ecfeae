use stream_download::metadata::parse_content_length;

#[test]
fn parses_plain_decimal() {
    assert_eq!(parse_content_length(b"1234"), Some(1234));
    assert_eq!(parse_content_length(b"0"), Some(0));
    assert_eq!(parse_content_length(b"007"), Some(7));
}

#[test]
fn rejects_empty_value() {
    assert_eq!(parse_content_length(b""), None);
}

#[test]
fn rejects_non_digits() {
    assert_eq!(parse_content_length(b"12a4"), None);
    assert_eq!(parse_content_length(b"-5"), None);
    assert_eq!(parse_content_length(b" 12"), None);
    assert_eq!(parse_content_length(b"12 "), None);
}

#[test]
fn largest_value_fits() {
    assert_eq!(parse_content_length(b"18446744073709551615"), Some(u64::MAX));
}

#[test]
fn rejects_values_that_do_not_fit() {
    assert_eq!(parse_content_length(b"18446744073709551616"), None);
    assert_eq!(parse_content_length(b"99999999999999999999999"), None);
    assert_eq!(parse_content_length(b"184467440737095516150"), None);
}
