use skagit_flats::datetime::{
    checked_iso8601_to_epoch, checked_nwis_datetime, epoch_from_fields, extract_tz_offset, is_leap_year,
    parse_iso8601_to_epoch, parse_nwis_datetime, parse_tz_hhmm, parse_wsdot_date,
};

#[test]
fn parse_iso8601_timestamp() {
    let ts = parse_iso8601_to_epoch("2026-03-28T12:53:00+00:00");
    assert!(ts > 0);
    // Should be roughly 2026-03-28 in Unix time (around 1774792380)
    assert!(ts > 1774000000);
    assert!(ts < 1780000000);
}

#[test]
fn parse_iso8601_exact_value() {
    assert_eq!(parse_iso8601_to_epoch("2026-03-28T12:53:00+00:00"), 1774702380);
    assert_eq!(parse_iso8601_to_epoch("1970-01-01T00:00:00+00:00"), 0);
    // the seconds field "01Z" does not parse and reads as 0
    assert_eq!(parse_iso8601_to_epoch("2024-02-29T00:00:01Z"), 1709164800);
    assert_eq!(parse_iso8601_to_epoch("2024-02-29T00:00:01+00:00"), 1709164801);
}

#[test]
fn parse_iso8601_bad_input_returns_zero() {
    assert_eq!(parse_iso8601_to_epoch("not a date"), 0);
    assert_eq!(parse_iso8601_to_epoch(""), 0);
}

#[test]
fn checked_iso8601_refuses_month_past_the_table() {
    assert_eq!(checked_iso8601_to_epoch("2026-14-01T00:00:00"), None);
    assert_eq!(checked_iso8601_to_epoch("2026-03-28T12:53:00+00:00"), Some(1774702380));
}

#[test]
fn parse_nwis_datetime_with_negative_offset() {
    let ts = parse_nwis_datetime("2026-03-28T12:45:00.000-07:00");
    assert!(ts > 0);
    // 2026-03-28T12:45:00-07:00 = 2026-03-28T19:45:00Z
    assert!(ts > 1774000000);
    assert!(ts < 1780000000);
}

#[test]
fn parse_nwis_datetime_applies_offset_exactly() {
    assert_eq!(parse_nwis_datetime("2026-03-28T12:45:00.000-07:00"), 1774727100);
    assert_eq!(parse_nwis_datetime("2026-03-28T21:45:00.000+02:00"), 1774727100);
    assert_eq!(checked_nwis_datetime("2026-03-28T19:45:00.000"), Some(1774727100));
}

#[test]
fn parse_nwis_datetime_bad_input_returns_zero() {
    assert_eq!(parse_nwis_datetime("not a date"), 0);
    assert_eq!(parse_nwis_datetime(""), 0);
}

#[test]
fn tz_offsets() {
    assert_eq!(parse_tz_hhmm("07:00"), 25200);
    assert_eq!(parse_tz_hhmm("05:30"), 19800);
    assert_eq!(parse_tz_hhmm("x"), 0);
    let (head, off) = extract_tz_offset("12:45:00.000-07:00");
    assert_eq!(head, "12:45:00.000");
    assert_eq!(off, -25200);
    let (head, off) = extract_tz_offset("12:45:00+01:00");
    assert_eq!(head, "12:45:00");
    assert_eq!(off, 3600);
    let (head, off) = extract_tz_offset("12:45:00");
    assert_eq!(head, "12:45:00");
    assert_eq!(off, 0);
}

#[test]
fn leap_years() {
    assert!(is_leap_year(2024));
    assert!(is_leap_year(2000));
    assert!(!is_leap_year(1900));
    assert!(!is_leap_year(2026));
}

#[test]
fn epoch_from_fields_counts_days() {
    assert_eq!(epoch_from_fields(1970, 1, 1, 0, 0, 0, 0), Some(0));
    assert_eq!(epoch_from_fields(2026, 3, 28, 19, 45, 0, 0), Some(1774727100));
    assert_eq!(epoch_from_fields(2026, 3, 28, 12, 45, 0, -25200), Some(1774727100));
    // month 13 runs through the whole table: the first day of the next year
    assert_eq!(epoch_from_fields(2026, 13, 1, 0, 0, 0, 0), Some(1798761600));
    assert_eq!(epoch_from_fields(2026, 14, 1, 0, 0, 0, 0), None);
}

#[test]
fn parse_wsdot_date_format() {
    // /Date(1711652400000-0700)/ = 1711652400 seconds
    assert_eq!(parse_wsdot_date("/Date(1711652400000-0700)/"), Some(1711652400));
    // No offset
    assert_eq!(parse_wsdot_date("/Date(1711652400000)/"), Some(1711652400));
    // Invalid format
    assert_eq!(parse_wsdot_date("not a date"), None);
    assert_eq!(parse_wsdot_date(""), None);
}

#[test]
fn parse_wsdot_date_edge_cases() {
    assert_eq!(parse_wsdot_date("/Date(1711652400999+0100)/"), Some(1711652400));
    assert_eq!(parse_wsdot_date("/Date()/"), None);
    assert_eq!(parse_wsdot_date("/Date(abc)/"), None);
    assert_eq!(parse_wsdot_date("/Date(1711652400000"), None);
}
