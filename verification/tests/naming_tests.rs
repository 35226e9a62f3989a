use sortify::file_ops::bucket_of;
use sortify::naming::FilenameGenerator;
use sortify::timestamp::CaptureTimestamp;

fn ct(year: u32, month: u32, day: u32, hour: u32, minute: u32, second: u32, millis: u16) -> CaptureTimestamp {
    CaptureTimestamp { year, month, day, hour, minute, second, millis }
}

#[test]
fn canonical_form() {
    let gen = FilenameGenerator::new();
    let name = gen.generate_filename(&ct(2025, 9, 24, 8, 20, 49, 680), "jpg", &Vec::new());
    assert_eq!(name, "2025/09-Sep/20250924_082049.680.jpg");
}

#[test]
fn generate_filename_is_deterministic() {
    let gen = FilenameGenerator::new();
    let ts = ct(2025, 9, 24, 8, 20, 49, 680);
    let claimed = vec![String::from("2025/09-Sep/20250924_082049.680.jpg")];
    let a = gen.generate_filename(&ts, "jpg", &claimed);
    let b = gen.generate_filename(&ts, "jpg", &claimed);
    assert_eq!(a, b);
}

#[test]
fn tie_break_appends_suffix_two() {
    let gen = FilenameGenerator::new();
    let ts = ct(2025, 9, 24, 8, 20, 49, 680);
    let claimed = vec![String::from("2025/09-Sep/20250924_082049.680.jpg")];
    let name = gen.generate_filename(&ts, "jpg", &claimed);
    assert_eq!(name, "2025/09-Sep/20250924_082049.680-2.jpg");
    assert!(!claimed.contains(&name));
}

#[test]
fn tie_break_takes_next_free_suffix() {
    let gen = FilenameGenerator::new();
    let ts = ct(2025, 9, 24, 8, 20, 49, 680);
    let claimed = vec![
        String::from("2025/09-Sep/20250924_082049.680.jpg"),
        String::from("2025/09-Sep/20250924_082049.680-2.jpg"),
        String::from("2025/09-Sep/20250924_082049.680-3.jpg"),
    ];
    let name = gen.generate_filename(&ts, "jpg", &claimed);
    assert_eq!(name, "2025/09-Sep/20250924_082049.680-4.jpg");
    assert!(!claimed.contains(&name));
}

#[test]
fn unrelated_claims_leave_canonical_name() {
    let gen = FilenameGenerator::new();
    let ts = ct(2025, 9, 24, 8, 20, 49, 680);
    let claimed = vec![String::from("2025/09-Sep/20250924_082049.679.jpg")];
    let name = gen.generate_filename(&ts, "jpg", &claimed);
    assert_eq!(name, "2025/09-Sep/20250924_082049.680.jpg");
}

#[test]
fn identical_instants_get_distinct_paths() {
    // two files captured at the same millisecond in one batch
    let gen = FilenameGenerator::new();
    let ts = ct(2025, 9, 24, 8, 20, 49, 680);
    let mut claimed: Vec<String> = Vec::new();
    let first = gen.generate_filename(&ts, "jpg", &claimed);
    claimed.push(first.clone());
    let second = gen.generate_filename(&ts, "jpg", &claimed);
    assert_eq!(first, "2025/09-Sep/20250924_082049.680.jpg");
    assert_eq!(second, "2025/09-Sep/20250924_082049.680-2.jpg");
    assert_ne!(first, second);
}

#[test]
fn month_abbreviations_are_fixed_english() {
    let gen = FilenameGenerator::new();
    let months = [
        "Jan", "Feb", "Mar", "Apr", "May", "Jun", "Jul", "Aug", "Sep", "Oct", "Nov", "Dec",
    ];
    for m in 1..=12u32 {
        let name = gen.generate_filename(&ct(2025, m, 1, 0, 0, 0, 0), "jpg", &Vec::new());
        assert!(name.contains(months[(m - 1) as usize]));
    }
}

#[test]
fn bucket_matches_path_prefix() {
    let ts = ct(2025, 9, 24, 8, 20, 49, 680);
    let bucket = bucket_of(&ts);
    assert_eq!(bucket, "2025/09-Sep");
    let gen = FilenameGenerator::new();
    let name = gen.generate_filename(&ts, "jpg", &Vec::new());
    assert!(name.starts_with("2025/09-Sep/"));
}
