use sortify::timestamp::{days_in_month, is_leap_year, parse_timestamp_with_subseconds, CaptureTimestamp};

fn ct(year: u32, month: u32, day: u32, hour: u32, minute: u32, second: u32, millis: u16) -> CaptureTimestamp {
    CaptureTimestamp { year, month, day, hour, minute, second, millis }
}

#[test]
fn parses_exif_format_with_fraction() {
    let r = parse_timestamp_with_subseconds("2025:09:24 08:20:49.680");
    assert_eq!(r, Some(ct(2025, 9, 24, 8, 20, 49, 680)));
}

#[test]
fn parses_iso_format_without_fraction() {
    let r = parse_timestamp_with_subseconds("2025-09-24 08:20:49");
    assert_eq!(r, Some(ct(2025, 9, 24, 8, 20, 49, 0)));
}

#[test]
fn parses_t_separator() {
    let r = parse_timestamp_with_subseconds("2025-09-24T08:20:49");
    assert_eq!(r, Some(ct(2025, 9, 24, 8, 20, 49, 0)));
}

#[test]
fn strips_timezone_after_fraction() {
    let r = parse_timestamp_with_subseconds("2025:10:12 16:26:03.12-04:00");
    assert_eq!(r, Some(ct(2025, 10, 12, 16, 26, 3, 120)));
}

#[test]
fn strips_trailing_timezone_without_fraction() {
    let r = parse_timestamp_with_subseconds("2025:09:24 08:20:49+05:30");
    assert_eq!(r, Some(ct(2025, 9, 24, 8, 20, 49, 0)));
}

#[test]
fn truncates_fraction_beyond_three_digits() {
    let r = parse_timestamp_with_subseconds("2025:09:24 08:20:49.12345");
    assert_eq!(r, Some(ct(2025, 9, 24, 8, 20, 49, 123)));
}

#[test]
fn pads_short_fraction_with_zeros() {
    let r = parse_timestamp_with_subseconds("2025:09:24 08:20:49.6");
    assert_eq!(r, Some(ct(2025, 9, 24, 8, 20, 49, 600)));
}

#[test]
fn strips_quotes_around_fraction() {
    let r = parse_timestamp_with_subseconds("2025:09:24 08:20:49.\"68\"");
    assert_eq!(r, Some(ct(2025, 9, 24, 8, 20, 49, 680)));
}

#[test]
fn trims_surrounding_whitespace() {
    let r = parse_timestamp_with_subseconds("  2025:09:24 08:20:49  ");
    assert_eq!(r, Some(ct(2025, 9, 24, 8, 20, 49, 0)));
}

#[test]
fn rejects_garbage() {
    assert_eq!(parse_timestamp_with_subseconds("not a date"), None);
    assert_eq!(parse_timestamp_with_subseconds(""), None);
    assert_eq!(parse_timestamp_with_subseconds("2025:09:24"), None);
}

#[test]
fn rejects_calendar_impossibilities() {
    assert_eq!(parse_timestamp_with_subseconds("2025:02:30 10:00:00"), None);
    assert_eq!(parse_timestamp_with_subseconds("2025:02:29 10:00:00"), None);
    assert_eq!(parse_timestamp_with_subseconds("2025:00:10 10:00:00"), None);
    assert_eq!(parse_timestamp_with_subseconds("2025:13:10 10:00:00"), None);
    assert_eq!(parse_timestamp_with_subseconds("2025:06:31 10:00:00"), None);
    assert_eq!(parse_timestamp_with_subseconds("2025:06:10 24:00:00"), None);
    assert_eq!(parse_timestamp_with_subseconds("2025:06:10 10:60:00"), None);
}

#[test]
fn accepts_leap_day_in_leap_year() {
    let r = parse_timestamp_with_subseconds("2024:02:29 00:00:00");
    assert_eq!(r, Some(ct(2024, 2, 29, 0, 0, 0, 0)));
}

#[test]
fn rejects_mixed_separators() {
    assert_eq!(parse_timestamp_with_subseconds("2025-09:24 08:20:49"), None);
}

#[test]
fn rejects_non_digit_fraction() {
    assert_eq!(parse_timestamp_with_subseconds("2025:09:24 08:20:49.ab"), None);
}

#[test]
fn leap_year_rules() {
    assert!(is_leap_year(2024));
    assert!(!is_leap_year(2025));
    assert!(!is_leap_year(1900));
    assert!(is_leap_year(2000));
}

#[test]
fn month_lengths() {
    assert_eq!(days_in_month(2025, 1), 31);
    assert_eq!(days_in_month(2025, 2), 28);
    assert_eq!(days_in_month(2024, 2), 29);
    assert_eq!(days_in_month(2025, 4), 30);
    assert_eq!(days_in_month(2025, 12), 31);
}

#[test]
fn validity_check() {
    assert!(ct(2025, 9, 24, 8, 20, 49, 680).is_valid());
    assert!(!ct(2025, 2, 30, 8, 20, 49, 680).is_valid());
    assert!(!ct(2025, 9, 24, 8, 20, 49, 1000).is_valid());
}

#[test]
fn empty_fraction_means_zero_millis() {
    let r = parse_timestamp_with_subseconds("2025:09:24 08:20:49.");
    assert_eq!(r, Some(ct(2025, 9, 24, 8, 20, 49, 0)));
}

#[test]
fn t_separator_with_fraction_and_timezone() {
    let r = parse_timestamp_with_subseconds("2025-09-24T08:20:49.680+02:00");
    assert_eq!(r, Some(ct(2025, 9, 24, 8, 20, 49, 680)));
}

#[test]
fn december_bucket_is_last_month() {
    let r = parse_timestamp_with_subseconds("2025:12:31 23:59:59");
    assert_eq!(r, Some(ct(2025, 12, 31, 23, 59, 59, 0)));
}
