use rustdatetime::normalize::{
    convert, convert_utc, convert_with_offset, render_result, unix_to_local, unix_to_local_utc,
    LocalConversionResult, MAX_SUPPORTED, MIN_SUPPORTED,
};
use rustdatetime::rfc3339::rfc3339_to_epoch;

#[test]
fn add_small_values() {
    assert_eq!(rustdatetime::add(2, 3), 5);
    assert_eq!(rustdatetime::add(-1, 1), 0);
}

#[test]
fn add_mixed_signs() {
    assert_eq!(rustdatetime::add(-10, 3), -7);
    assert_eq!(rustdatetime::add(i64::MAX, 0), i64::MAX);
    assert_eq!(rustdatetime::add(i64::MIN, 0), i64::MIN);
}

#[test]
fn passthrough_integer() {
    assert_eq!(rustdatetime::passthrough(42i64), 42i64);
    assert_eq!(rustdatetime::passthrough(-7i64), -7i64);
}

#[test]
fn passthrough_string() {
    let s = String::from("a host value");
    assert_eq!(rustdatetime::passthrough(s.clone()), s);
}

#[derive(Debug, PartialEq, Clone)]
struct Record {
    id: i64,
    name: String,
    tags: Vec<String>,
}

#[test]
fn passthrough_structured_record() {
    let r = Record {
        id: 9,
        name: String::from("row"),
        tags: vec![String::from("a"), String::from("b")],
    };
    assert_eq!(rustdatetime::passthrough(r.clone()), r);
}

#[test]
fn epoch_in_utc_zone() {
    assert_eq!(unix_to_local_utc(0), "1970-01-01T00:00:00+00:00");
}

#[test]
fn utc_boundaries() {
    assert_eq!(unix_to_local_utc(MIN_SUPPORTED), "0000-01-02T00:00:00+00:00");
    assert_eq!(unix_to_local_utc(MAX_SUPPORTED), "9999-12-30T23:59:59+00:00");
    assert_eq!(unix_to_local_utc(MIN_SUPPORTED - 1), "none");
    assert_eq!(unix_to_local_utc(MAX_SUPPORTED + 1), "none");
}

#[test]
fn local_out_of_range_is_none() {
    assert_eq!(unix_to_local(i64::MAX), "none");
    assert_eq!(unix_to_local(i64::MIN), "none");
    assert_eq!(unix_to_local(MAX_SUPPORTED + 1), "none");
    assert_eq!(unix_to_local(MIN_SUPPORTED - 1), "none");
}

#[test]
fn local_round_trip_recovers_instant() {
    for &n in &[
        0i64,
        1,
        -1,
        951782400,
        1678606200,
        1700000000,
        -1000000000,
        MIN_SUPPORTED,
        MAX_SUPPORTED,
    ] {
        let s = unix_to_local(n);
        assert_eq!(rfc3339_to_epoch(&s), Some(n), "round trip failed for {n}: {s}");
    }
}

#[test]
fn utc_round_trip_recovers_instant() {
    for &n in &[0i64, 86399, -86399, 4102444800, MIN_SUPPORTED, MAX_SUPPORTED] {
        let s = unix_to_local_utc(n);
        assert_eq!(rfc3339_to_epoch(&s), Some(n), "round trip failed for {n}: {s}");
    }
}

#[test]
fn conversion_is_deterministic() {
    for &n in &[0i64, 1700000000, -12345, MAX_SUPPORTED + 7] {
        assert_eq!(unix_to_local(n), unix_to_local(n));
        assert_eq!(unix_to_local_utc(n), unix_to_local_utc(n));
    }
}

#[test]
fn convert_yields_single_for_supported_instants() {
    assert!(matches!(convert(0), LocalConversionResult::Single(_)));
    assert!(matches!(convert(1700000000), LocalConversionResult::Single(_)));
    assert!(matches!(convert(i64::MAX), LocalConversionResult::Gap));
    assert!(matches!(convert_utc(0), LocalConversionResult::Single(_)));
    assert!(matches!(convert_utc(i64::MIN), LocalConversionResult::Gap));
}

#[test]
fn explicit_offsets_render_and_round_trip() {
    let r = convert_with_offset(0, 3600);
    assert_eq!(render_result(&r), "1970-01-01T01:00:00+01:00");
    let r = convert_with_offset(0, -18000);
    assert_eq!(render_result(&r), "1969-12-31T19:00:00-05:00");
}

#[test]
fn sub_minute_offsets_round_to_whole_minutes_exactly() {
    // A timezone offset of -19 minutes 32 seconds is rounded to -20 minutes,
    // and the local time is shifted by the rounded offset, so the stamp still
    // denotes the instant exactly.
    let r = convert_with_offset(0, -1172);
    let s = render_result(&r);
    assert_eq!(s, "1969-12-31T23:40:00-00:20");
    assert_eq!(rfc3339_to_epoch(&s), Some(0));
    // Half a minute rounds up, away from zero.
    let r = convert_with_offset(0, 30);
    let s = render_result(&r);
    assert_eq!(s, "1970-01-01T00:01:00+00:01");
    assert_eq!(rfc3339_to_epoch(&s), Some(0));
}

#[test]
fn sentinels_serialize_to_their_literals() {
    assert_eq!(render_result(&LocalConversionResult::Gap), "none");
    assert_eq!(render_result(&LocalConversionResult::Ambiguous), "ambiguous");
    let single = LocalConversionResult::Single(String::from("2020-01-01T00:00:00+00:00"));
    assert_eq!(render_result(&single), "2020-01-01T00:00:00+00:00");
}
