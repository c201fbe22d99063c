use rustdatetime::rfc3339::rfc3339_to_epoch;

#[test]
fn parses_epoch() {
    assert_eq!(rfc3339_to_epoch("1970-01-01T00:00:00+00:00"), Some(0));
}

#[test]
fn parses_negative_offset() {
    assert_eq!(rfc3339_to_epoch("2023-03-12T02:30:00-05:00"), Some(1678606200));
    assert_eq!(rfc3339_to_epoch("1969-12-31T19:00:00-05:00"), Some(0));
}

#[test]
fn parses_positive_offset() {
    assert_eq!(rfc3339_to_epoch("1970-01-01T01:00:00+01:00"), Some(0));
    assert_eq!(rfc3339_to_epoch("1970-01-01T05:30:00+05:30"), Some(0));
}

#[test]
fn parses_leap_day() {
    assert_eq!(rfc3339_to_epoch("2024-02-29T12:00:00+00:00"), Some(1709208000));
}

#[test]
fn parses_whole_day_offset() {
    assert_eq!(rfc3339_to_epoch("1970-01-01T00:00:00+24:00"), Some(-86400));
    assert_eq!(rfc3339_to_epoch("1970-01-01T00:00:00-24:00"), Some(86400));
}

#[test]
fn rejects_invalid_dates() {
    assert_eq!(rfc3339_to_epoch("2023-02-29T00:00:00+00:00"), None);
    assert_eq!(rfc3339_to_epoch("2023-13-01T00:00:00+00:00"), None);
    assert_eq!(rfc3339_to_epoch("2023-00-10T00:00:00+00:00"), None);
    assert_eq!(rfc3339_to_epoch("2023-04-31T00:00:00+00:00"), None);
    assert_eq!(rfc3339_to_epoch("2023-01-00T00:00:00+00:00"), None);
}

#[test]
fn rejects_invalid_times() {
    assert_eq!(rfc3339_to_epoch("2023-01-01T24:00:00+00:00"), None);
    assert_eq!(rfc3339_to_epoch("2023-01-01T00:60:00+00:00"), None);
    assert_eq!(rfc3339_to_epoch("2023-01-01T00:00:60+00:00"), None);
}

#[test]
fn rejects_invalid_offsets() {
    assert_eq!(rfc3339_to_epoch("2023-01-01T00:00:00+25:00"), None);
    assert_eq!(rfc3339_to_epoch("2023-01-01T00:00:00+24:01"), None);
    assert_eq!(rfc3339_to_epoch("2023-01-01T00:00:00+00:60"), None);
    assert_eq!(rfc3339_to_epoch("2023-01-01T00:00:00*00:00"), None);
}

#[test]
fn rejects_malformed_text() {
    assert_eq!(rfc3339_to_epoch(""), None);
    assert_eq!(rfc3339_to_epoch("1970-01-01T00:00:00Z"), None);
    assert_eq!(rfc3339_to_epoch("1970-01-01 00:00:00+00:00"), None);
    assert_eq!(rfc3339_to_epoch("1970-01-01t00:00:00+00:00"), None);
    assert_eq!(rfc3339_to_epoch("197a-01-01T00:00:00+00:00"), None);
    assert_eq!(rfc3339_to_epoch("1970-01-01T00:00:00+00:000"), None);
    assert_eq!(rfc3339_to_epoch("xxxxxxxxxxxxxxxxxxxxxxxxx"), None);
}
