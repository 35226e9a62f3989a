use sortify::exif::{ExifProcessor, MetadataBag};
use sortify::file_ops::ExtractionOutcome;
use sortify::naming::FilenameGenerator;
use sortify::strmap::StringMap;
use sortify::timestamp::CaptureTimestamp;

fn bag(pairs: &[(&str, &str)]) -> MetadataBag {
    let mut m = StringMap::new();
    for (k, v) in pairs {
        m.insert(String::from(*k), String::from(*v));
    }
    m
}

fn ct(year: u32, month: u32, day: u32, hour: u32, minute: u32, second: u32, millis: u16) -> CaptureTimestamp {
    CaptureTimestamp { year, month, day, hour, minute, second, millis }
}

#[test]
fn modify_date_only_resolves_with_zero_millis() {
    let p = ExifProcessor::new();
    let m = bag(&[("ModifyDate", "2025:09:24 08:20:49")]);
    let r = p.extract_best_timestamp(&m);
    assert_eq!(r, Some(ct(2025, 9, 24, 8, 20, 49, 0)));
    let gen = FilenameGenerator::new();
    let name = gen.generate_filename(&r.unwrap(), "jpg", &Vec::new());
    assert_eq!(name, "2025/09-Sep/20250924_082049.000.jpg");
}

#[test]
fn precombined_beats_combination() {
    let p = ExifProcessor::new();
    let m = bag(&[
        ("SubSecCreateDate", "2020:01:01 00:00:00.111"),
        ("DateTimeOriginal", "2025:09:24 08:20:49"),
        ("SubSecTimeOriginal", "68"),
    ]);
    let r = p.extract_best_timestamp(&m);
    assert_eq!(r, Some(ct(2020, 1, 1, 0, 0, 0, 111)));
}

#[test]
fn combination_pads_fraction() {
    let p = ExifProcessor::new();
    let m = bag(&[("ModifyDate", "2025:09:24 08:20:49"), ("SubSecTime", "68")]);
    let r = p.extract_best_timestamp(&m);
    assert_eq!(r, Some(ct(2025, 9, 24, 8, 20, 49, 680)));
}

#[test]
fn combination_truncates_long_fraction() {
    let p = ExifProcessor::new();
    let m = bag(&[("DateTimeOriginal", "2025:09:24 08:20:49"), ("SubSecTimeOriginal", "12345")]);
    let r = p.extract_best_timestamp(&m);
    assert_eq!(r, Some(ct(2025, 9, 24, 8, 20, 49, 123)));
}

#[test]
fn video_bag_uses_video_priority_list() {
    let p = ExifProcessor::new();
    // only a media creation date: classified as video, resolved from it
    let m = bag(&[("MediaCreateDate", "2023:01:01 10:00:00")]);
    let r = p.extract_best_timestamp(&m);
    assert_eq!(r, Some(ct(2023, 1, 1, 10, 0, 0, 0)));
}

#[test]
fn video_prefers_capture_original_even_with_recent_year() {
    let p = ExifProcessor::new();
    // DateTimeOriginal's name marks no filesystem stamp, so a year
    // after 2024 does not exclude it
    let m = bag(&[
        ("MediaCreateDate", "2023:01:01 10:00:00"),
        ("DateTimeOriginal", "2026:05:05 05:05:05"),
    ]);
    let r = p.extract_best_timestamp(&m);
    assert_eq!(r, Some(ct(2026, 5, 5, 5, 5, 5, 0)));
}

#[test]
fn video_falls_through_unparseable_fields() {
    let p = ExifProcessor::new();
    let m = bag(&[
        ("MediaCreateDate", "garbage"),
        ("MediaModifyDate", "2022:03:04 05:06:07"),
    ]);
    let r = p.extract_best_timestamp(&m);
    assert_eq!(r, Some(ct(2022, 3, 4, 5, 6, 7, 0)));
}

#[test]
fn photo_fallback_order() {
    let p = ExifProcessor::new();
    let m = bag(&[
        ("DateTimeDigitized", "2021:01:01 01:01:01"),
        ("ModifyDate", "2022:02:02 02:02:02"),
    ]);
    // ModifyDate outranks DateTimeDigitized among bare base fields
    let r = p.extract_best_timestamp(&m);
    assert_eq!(r, Some(ct(2022, 2, 2, 2, 2, 2, 0)));
}

#[test]
fn last_resort_create_date_accepted_when_not_zero() {
    let p = ExifProcessor::new();
    let m = bag(&[("CreateDate", "2019:07:08 09:10:11")]);
    let r = p.extract_best_timestamp(&m);
    assert_eq!(r, Some(ct(2019, 7, 8, 9, 10, 11, 0)));
}

#[test]
fn last_resort_create_date_rejected_when_all_zero() {
    let p = ExifProcessor::new();
    let m = bag(&[("CreateDate", "0000:00:00 00:00:00")]);
    assert_eq!(p.extract_best_timestamp(&m), None);
}

#[test]
fn empty_bag_resolves_to_nothing() {
    let p = ExifProcessor::new();
    let m = bag(&[]);
    assert_eq!(p.extract_best_timestamp(&m), None);
}

#[test]
fn zero_timestamp_detection() {
    let p = ExifProcessor::new();
    assert!(p.is_zero_timestamp("0000:00:00 00:00:00"));
    assert!(!p.is_zero_timestamp("2019:07:08 09:10:11"));
}

#[test]
fn recency_detection() {
    let p = ExifProcessor::new();
    assert!(p.is_recent_timestamp("2025:01:01 00:00:00"));
    assert!(!p.is_recent_timestamp("2024:12:31 23:59:59"));
    assert!(!p.is_recent_timestamp("garbage"));
}

#[test]
fn analyze_skips_symlink_with_note() {
    let p = ExifProcessor::new();
    let r = p.analyze_single_file(&String::from("/in/a.jpg"), ExtractionOutcome::Symlink);
    assert_eq!(r.file_path, "/in/a.jpg");
    assert!(r.success);
    assert!(r.exif_data.is_none());
    assert!(r.new_filename.is_none());
    assert_eq!(r.error.as_deref(), Some("Skipped symlink - cannot process symbolic links"));
}

#[test]
fn analyze_carries_extraction_failure() {
    let p = ExifProcessor::new();
    let r = p.analyze_single_file(
        &String::from("/in/a.jpg"),
        ExtractionOutcome::Failed(String::from("unreadable")),
    );
    assert!(!r.success);
    assert_eq!(r.error.as_deref(), Some("unreadable"));
}

#[test]
fn analyze_names_resolved_file() {
    let p = ExifProcessor::new();
    let m = bag(&[("ModifyDate", "2025:09:24 08:20:49")]);
    let r = p.analyze_single_file(&String::from("/in/a.JPG"), ExtractionOutcome::Extracted(m));
    assert!(r.success);
    assert!(r.error.is_none());
    assert_eq!(r.new_filename.as_deref(), Some("2025/09-Sep/20250924_082049.000.jpg"));
}

#[test]
fn analyze_reports_missing_timestamp() {
    let p = ExifProcessor::new();
    let m = bag(&[("Make", "CameraCo")]);
    let r = p.analyze_single_file(&String::from("/in/a.jpg"), ExtractionOutcome::Extracted(m));
    assert!(!r.success);
    assert_eq!(r.error.as_deref(), Some("No valid EXIF timestamp found for: /in/a.jpg"));
}

#[test]
fn bag_insert_replaces_existing_key() {
    let mut m = StringMap::new();
    m.insert(String::from("k"), String::from("1"));
    m.insert(String::from("k"), String::from("2"));
    assert_eq!(m.len(), 1);
    assert_eq!(m.get("k"), Some(String::from("2")));
    assert_eq!(m.get("missing"), None);
}
