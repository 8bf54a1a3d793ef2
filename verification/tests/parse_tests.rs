use gpx_report::text::{parse_scaled, parse_time};

#[test]
fn parses_plain_integer_meters_to_millimeters() {
    assert_eq!(parse_scaled("100", 3), Some(100_000));
}

#[test]
fn parses_fraction_and_truncates_extra_digits() {
    assert_eq!(parse_scaled("12.345", 3), Some(12_345));
    assert_eq!(parse_scaled("12.3456", 3), Some(12_345));
    assert_eq!(parse_scaled("12.3", 3), Some(12_300));
}

#[test]
fn parses_signed_degrees_to_microdegrees() {
    assert_eq!(parse_scaled("-122.31", 6), Some(-122_310_000));
    assert_eq!(parse_scaled("+47.6", 6), Some(47_600_000));
    assert_eq!(parse_scaled("0.0", 6), Some(0));
}

#[test]
fn rejects_stray_characters_and_empty_numerals() {
    assert_eq!(parse_scaled("", 3), None);
    assert_eq!(parse_scaled("-", 3), None);
    assert_eq!(parse_scaled(".5", 3), None);
    assert_eq!(parse_scaled("1e5", 3), None);
    assert_eq!(parse_scaled("12.3a", 3), None);
    assert_eq!(parse_scaled("north", 6), None);
    assert_eq!(parse_scaled("1.2.3", 3), None);
}

#[test]
fn rejects_more_than_nine_integer_digits() {
    assert_eq!(parse_scaled("1234567890", 3), None);
    assert_eq!(parse_scaled("999999999", 3), Some(999_999_999_000));
}

#[test]
fn trailing_dot_is_accepted_as_whole_number() {
    assert_eq!(parse_scaled("5.", 3), Some(5_000));
}

#[test]
fn parses_well_formed_timestamp() {
    let t = parse_time("2021-09-16T11:03:01").unwrap();
    assert_eq!(t.year, 2021);
    assert_eq!(t.month, 9);
    assert_eq!(t.day, 16);
    assert_eq!(t.hour, 11);
    assert_eq!(t.minute, 3);
    assert_eq!(t.second, 1);
}

#[test]
fn rejects_malformed_timestamps() {
    assert_eq!(parse_time("2021-09-16 11:03:01"), None);
    assert_eq!(parse_time("2021-09-16T11:03"), None);
    assert_eq!(parse_time("2021-13-16T11:03:01"), None);
    assert_eq!(parse_time("2021-00-16T11:03:01"), None);
    assert_eq!(parse_time("2021-09-32T11:03:01"), None);
    assert_eq!(parse_time("2021-09-16T24:03:01"), None);
    assert_eq!(parse_time("2021-09-16T11:60:01"), None);
    assert_eq!(parse_time("2021-09-16T11:03:60"), None);
    assert_eq!(parse_time("0000-09-16T11:03:01"), None);
    assert_eq!(parse_time("2021-09-16T11:03:0x"), None);
}
