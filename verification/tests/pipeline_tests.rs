use sortify::exif::{ExifProcessor, MetadataBag};
use sortify::file_ops::{
    files_needing_hash, get_file_extension, group_by_bucket, is_media_extension, parse_mode,
    partition_placeable, placement_decision, provisional_targets, record_outcome, summarize,
    validate_config, worker_count, AnalysisResult, ConfigError, ExtractionOutcome,
    OperationMode, PlacementDecision, ProcessResult,
};
use sortify::naming::FilenameGenerator;
use sortify::strmap::StringMap;

fn bag(pairs: &[(&str, &str)]) -> MetadataBag {
    let mut m = StringMap::new();
    for (k, v) in pairs {
        m.insert(String::from(*k), String::from(*v));
    }
    m
}

#[test]
fn mode_strings() {
    assert_eq!(parse_mode("move"), Some(OperationMode::Move));
    assert_eq!(parse_mode("copy"), Some(OperationMode::Copy));
    assert_eq!(parse_mode("symlink"), Some(OperationMode::Symlink));
    assert_eq!(parse_mode("hardlink"), None);
    assert_eq!(parse_mode(""), None);
}

#[test]
fn config_validation() {
    assert_eq!(validate_config(3, "move"), Ok(OperationMode::Move));
    assert_eq!(validate_config(0, "move"), Err(ConfigError::NoInputs));
    assert_eq!(validate_config(3, "teleport"), Err(ConfigError::InvalidMode));
    assert_eq!(ConfigError::NoInputs.message(), "No files specified");
}

#[test]
fn worker_counts() {
    assert_eq!(worker_count(None, 8), 4);
    assert_eq!(worker_count(None, 1), 1);
    assert_eq!(worker_count(Some(2), 16), 2);
    assert_eq!(worker_count(Some(100), 8), 4);
    assert_eq!(worker_count(Some(0), 8), 1);
}

#[test]
fn extension_extraction() {
    assert_eq!(get_file_extension("/a/b/photo.JPG"), "jpg");
    assert_eq!(get_file_extension("/a/b/clip.MOV"), "mov");
    assert_eq!(get_file_extension("noext"), "");
    assert_eq!(get_file_extension("/a/.hidden"), "");
    assert_eq!(get_file_extension("/a/x.%JPG"), "jpg");
    assert_eq!(get_file_extension("/a/x.%mp4"), "mp4");
    assert_eq!(get_file_extension("/a.dir/noext"), "");
}

#[test]
fn media_extension_filter() {
    assert!(is_media_extension("JPG"));
    assert!(is_media_extension("heic"));
    assert!(is_media_extension("3gp"));
    assert!(!is_media_extension("txt"));
    assert!(!is_media_extension(""));
}

#[test]
fn hash_gate_lists_only_colliding_pairs() {
    let p = ExifProcessor::new();
    let a = p.analyze_single_file(
        &String::from("/in/a.jpg"),
        ExtractionOutcome::Extracted(bag(&[("ModifyDate", "2025:09:24 08:20:49")])),
    );
    let b = p.analyze_single_file(
        &String::from("/in/b.jpg"),
        ExtractionOutcome::Extracted(bag(&[("ModifyDate", "2025:09:24 08:20:50")])),
    );
    let c = p.analyze_single_file(
        &String::from("/in/c.jpg"),
        ExtractionOutcome::Failed(String::from("no metadata")),
    );
    let results = vec![a, b, c];
    let targets = provisional_targets(&results, "/out");
    assert_eq!(
        targets[0].as_deref(),
        Some("/out/2025/09-Sep/20250924_082049.000.jpg")
    );
    assert!(targets[2].is_none());
    // only the first target already exists on disk
    let exists = vec![true, false, false];
    let to_hash = files_needing_hash(&results, &targets, &exists);
    assert_eq!(
        to_hash,
        vec![
            String::from("/in/a.jpg"),
            String::from("/out/2025/09-Sep/20250924_082049.000.jpg"),
        ]
    );
}

#[test]
fn placement_decisions() {
    let src = String::from("/in/a.jpg");
    let tgt = String::from("/out/x.jpg");
    let h1 = String::from("aaaa");
    let h2 = String::from("bbbb");
    // equal hashes at an existing target: a duplicate
    assert_eq!(
        placement_decision(&src, &tgt, true, Some(&h1), Some(&h1)),
        PlacementDecision::SkipDuplicate
    );
    // differing hashes: proceed
    assert_eq!(
        placement_decision(&src, &tgt, true, Some(&h1), Some(&h2)),
        PlacementDecision::Perform
    );
    // a missing hash is treated as not-a-duplicate
    assert_eq!(
        placement_decision(&src, &tgt, true, Some(&h1), None),
        PlacementDecision::Perform
    );
    // the target is the source itself
    assert_eq!(
        placement_decision(&src, &src, false, None, None),
        PlacementDecision::SkipNoop
    );
    assert_eq!(
        placement_decision(&src, &tgt, false, None, None),
        PlacementDecision::Perform
    );
}

#[test]
fn outcome_recording() {
    let mut claimed: Vec<String> = Vec::new();
    let ok = record_outcome(
        &mut claimed,
        String::from("2025/09-Sep/x.jpg"),
        String::from("/in/a.jpg"),
        String::from("/out/2025/09-Sep/x.jpg"),
        OperationMode::Move,
        Ok(()),
    );
    assert!(ok.success && ok.renamed);
    assert_eq!(ok.new_path.as_deref(), Some("/out/2025/09-Sep/x.jpg"));
    assert_eq!(claimed, vec![String::from("2025/09-Sep/x.jpg")]);

    let err = record_outcome(
        &mut claimed,
        String::from("2025/09-Sep/y.jpg"),
        String::from("/in/b.jpg"),
        String::from("/out/2025/09-Sep/y.jpg"),
        OperationMode::Move,
        Err(String::from("boom")),
    );
    assert!(!err.success && !err.renamed);
    assert_eq!(err.error.as_deref(), Some("Failed to move file: boom"));
    // a failed placement claims no name
    assert_eq!(claimed.len(), 1);
}

#[test]
fn summary_counts_partition_the_batch() {
    let mk = |success: bool, renamed: bool| ProcessResult {
        file_path: String::from("/f"),
        success,
        renamed,
        new_path: None,
        error: None,
    };
    let results = vec![mk(true, true), mk(true, false), mk(false, false), mk(true, true)];
    let s = summarize(&results);
    assert_eq!(s.processed, 4);
    assert_eq!(s.renamed, 2);
    assert_eq!(s.skipped, 1);
    assert_eq!(s.errors, 1);
}

fn analyze_batch(inputs: Vec<(String, ExtractionOutcome)>) -> Vec<AnalysisResult> {
    let p = ExifProcessor::new();
    inputs
        .into_iter()
        .map(|(path, outcome)| p.analyze_single_file(&path, outcome))
        .collect()
}

fn place_batch(results: Vec<AnalysisResult>, output_dir: &str) -> Vec<ProcessResult> {
    // phase 2 with no pre-existing files on disk and every operation
    // succeeding, driven bucket by bucket in analysis order
    let gen = FilenameGenerator::new();
    let (placeable, mut report) = partition_placeable(results);
    let groups = group_by_bucket(placeable);
    for (_bucket, members) in groups {
        let mut claimed: Vec<String> = Vec::new();
        for member in members {
            let ts = member.exif_data.as_ref().unwrap().timestamp;
            assert!(ts.is_valid());
            let ext = get_file_extension(&member.file_path);
            let final_name = gen.generate_filename(&ts, &ext, &claimed);
            let target = format!("{}/{}", output_dir, final_name);
            let r = record_outcome(
                &mut claimed,
                final_name,
                member.file_path,
                target,
                OperationMode::Move,
                Ok(()),
            );
            report.push(r);
        }
    }
    report
}

#[test]
fn one_failure_is_isolated_from_nine_successes() {
    let mut inputs: Vec<(String, ExtractionOutcome)> = Vec::new();
    for i in 0..9u32 {
        let value = format!("2025:09:24 08:20:{:02}", 10 + i);
        inputs.push((
            format!("/in/f{}.jpg", i),
            ExtractionOutcome::Extracted(bag(&[("ModifyDate", &value)])),
        ));
    }
    inputs.insert(4, (
        String::from("/in/broken.jpg"),
        ExtractionOutcome::Failed(String::from("unreadable input")),
    ));
    let with_failure = place_batch(analyze_batch(inputs.clone()), "/out");
    let s = summarize(&with_failure);
    assert_eq!(s.processed, 10);
    assert_eq!(s.renamed, 9);
    assert_eq!(s.skipped, 0);
    assert_eq!(s.errors, 1);
    let failed: Vec<&ProcessResult> = with_failure.iter().filter(|r| !r.success).collect();
    assert_eq!(failed.len(), 1);
    assert_eq!(failed[0].file_path, "/in/broken.jpg");
    assert_eq!(failed[0].error.as_deref(), Some("unreadable input"));

    // the same nine files without the broken one land on the same paths
    let mut only_valid = inputs;
    only_valid.remove(4);
    let without_failure = place_batch(analyze_batch(only_valid), "/out");
    let paths_a: Vec<Option<String>> = with_failure
        .iter()
        .filter(|r| r.success)
        .map(|r| r.new_path.clone())
        .collect();
    let paths_b: Vec<Option<String>> = without_failure
        .iter()
        .map(|r| r.new_path.clone())
        .collect();
    assert_eq!(paths_a, paths_b);
}

#[test]
fn duplicate_instants_across_phase_two() {
    // two files resolving to the identical capture instant within one
    // batch get distinct output paths, the second with a -2 suffix
    let inputs = vec![
        (
            String::from("/in/one.jpg"),
            ExtractionOutcome::Extracted(bag(&[("SubSecDateTimeOriginal", "2025:09:24 08:20:49.680")])),
        ),
        (
            String::from("/in/two.jpg"),
            ExtractionOutcome::Extracted(bag(&[("SubSecDateTimeOriginal", "2025:09:24 08:20:49.680")])),
        ),
    ];
    let report = place_batch(analyze_batch(inputs), "/out");
    assert_eq!(report.len(), 2);
    assert_eq!(
        report[0].new_path.as_deref(),
        Some("/out/2025/09-Sep/20250924_082049.680.jpg")
    );
    assert_eq!(
        report[1].new_path.as_deref(),
        Some("/out/2025/09-Sep/20250924_082049.680-2.jpg")
    );
}

#[test]
fn unplaced_records_have_no_target() {
    let p = ExifProcessor::new();
    let sym = p.analyze_single_file(&String::from("/in/link.jpg"), ExtractionOutcome::Symlink);
    let results = vec![sym];
    let targets = provisional_targets(&results, "/out");
    assert_eq!(targets, vec![None]);
    let (placeable, report) = partition_placeable(results);
    assert!(placeable.is_empty());
    assert_eq!(report.len(), 1);
    assert!(report[0].success);
    assert!(!report[0].renamed);
}

#[test]
fn groups_split_by_month() {
    let p = ExifProcessor::new();
    let a = p.analyze_single_file(
        &String::from("/in/a.jpg"),
        ExtractionOutcome::Extracted(bag(&[("ModifyDate", "2025:09:24 08:20:49")])),
    );
    let b = p.analyze_single_file(
        &String::from("/in/b.jpg"),
        ExtractionOutcome::Extracted(bag(&[("ModifyDate", "2025:10:01 00:00:00")])),
    );
    let c = p.analyze_single_file(
        &String::from("/in/c.jpg"),
        ExtractionOutcome::Extracted(bag(&[("ModifyDate", "2025:09:01 00:00:00")])),
    );
    let (placeable, _report) = partition_placeable(vec![a, b, c]);
    let groups = group_by_bucket(placeable);
    assert_eq!(groups.len(), 2);
    assert_eq!(groups[0].0, "2025/09-Sep");
    assert_eq!(groups[0].1.len(), 2);
    assert_eq!(groups[0].1[0].file_path, "/in/a.jpg");
    assert_eq!(groups[0].1[1].file_path, "/in/c.jpg");
    assert_eq!(groups[1].0, "2025/10-Oct");
    assert_eq!(groups[1].1.len(), 1);
}
