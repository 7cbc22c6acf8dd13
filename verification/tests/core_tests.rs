use chrono::{TimeZone, Utc};
use ocorganize_core::{
    advance_directory_validation, candidate_name, candidate_path, categorize_extension, collect_loose_root_files,
    get_target_folder_name, group_by_size, group_walk_result, is_known_file_type, is_organized_category_folder_name,
    plan_organization, restore_move, start_directory_validation, write_undo_log, CanonicalizeFailure,
    DirectoryCheck, EntryObservation, PathValidationError, PerformanceTier, ProbeOutcome, RuntimeProfile, Strategy,
    UndoEntry, UndoLogWriter, UndoRestoreResult, UnixTime, WalkResult,
};

fn file(path: &str) -> EntryObservation {
    EntryObservation {
        path: path.to_string(),
        is_symlink: false,
        is_dir: false,
        is_file: true,
        marked_dirs: Vec::new(),
        platform_hidden: false,
    }
}

fn dir(path: &str) -> EntryObservation {
    EntryObservation { is_dir: true, is_file: false, ..file(path) }
}

fn symlink(path: &str) -> EntryObservation {
    EntryObservation { is_symlink: true, is_file: false, ..file(path) }
}

fn names_in(files: &[String]) -> Vec<String> {
    files.iter().map(|p| ocorganize_core::file_name(p).unwrap()).collect()
}

/// Runs the directory checks, answering each probe from the given outcomes.
fn validate(raw: &str, outcomes: Vec<ProbeOutcome>) -> DirectoryCheck {
    let mut step = start_directory_validation(raw, None);
    for outcome in outcomes {
        if let DirectoryCheck::Done(_) = step {
            break;
        }
        step = advance_directory_validation(step, outcome);
    }
    step
}

fn parse_log(text: &str) -> Vec<UndoEntry> {
    let value: serde_json::Value = serde_json::from_str(text).unwrap();
    value
        .as_array()
        .unwrap()
        .iter()
        .map(|item| UndoEntry {
            from: item["from"].as_str().unwrap().to_string(),
            to: item["to"].as_str().unwrap().to_string(),
            timestamp: item["timestamp"].as_str().unwrap().to_string(),
        })
        .collect()
}

#[test]
fn sanitize_directory_path_valid() {
    let step = validate(
        "/tmp/organize-me",
        vec![
            ProbeOutcome::IsSymlink(false),
            ProbeOutcome::Canonical(Ok("/private/tmp/organize-me".to_string())),
            ProbeOutcome::IsDir(true),
            ProbeOutcome::Permissions(Ok(false)),
        ],
    );
    assert_eq!(step, DirectoryCheck::Done(Ok("/private/tmp/organize-me".to_string())));
}

#[test]
fn sanitize_directory_path_empty() {
    let result = start_directory_validation("", None);
    assert_eq!(result, DirectoryCheck::Done(Err(PathValidationError::Empty)));
}

#[test]
fn sanitize_directory_path_file() {
    let step = validate(
        "/tmp/dir/file.txt",
        vec![
            ProbeOutcome::IsSymlink(false),
            ProbeOutcome::Canonical(Ok("/tmp/dir/file.txt".to_string())),
            ProbeOutcome::IsDir(false),
        ],
    );
    assert_eq!(step, DirectoryCheck::Done(Err(PathValidationError::NotADirectory)));
}

#[test]
fn sanitize_directory_path_symlink() {
    let step = validate("/tmp/dir/link", vec![ProbeOutcome::IsSymlink(true)]);
    assert_eq!(step, DirectoryCheck::Done(Err(PathValidationError::SymlinkedDirectory)));
}

#[test]
fn group_files_type_and_symlinks() {
    let root = "/data/root";
    let entries = vec![
        dir(root),
        file("/data/root/a.txt"),
        file("/data/root/photo.jpg"),
        file("/data/root/clip.mp4"),
        file("/data/root/b"),
        file("/data/root/real"),
        symlink("/data/root/link"),
    ];
    let walk = collect_loose_root_files(root, &entries);
    let result = group_walk_result(walk, Strategy::Type, &Vec::new(), &Vec::new());
    assert!(names_in(result.get("Document").unwrap()).contains(&"a.txt".to_string()));
    assert!(names_in(result.get("Image").unwrap()).contains(&"photo.jpg".to_string()));
    assert!(names_in(result.get("Video").unwrap()).contains(&"clip.mp4".to_string()));
    let no_ext = names_in(result.get("no_extension").unwrap());
    assert!(no_ext.contains(&"b".to_string()));
    assert!(no_ext.contains(&"real".to_string()));
    assert_eq!(result.symlink_skip_count, 1);
}

#[test]
fn group_files_size() {
    let files = vec!["/d/small.bin".to_string(), "/d/medium.bin".to_string()];
    let sizes = vec![Some(100u64), Some(2 * 1024 * 1024)];
    let groups = group_by_size(&files, &sizes);
    let all: Vec<String> = groups.iter().flat_map(|g| g.files.clone()).collect();
    assert!(all.contains(&files[0]));
    assert!(all.contains(&files[1]));
}

#[test]
fn group_files_date() {
    let older = Utc.with_ymd_and_hms(2023, 1, 15, 12, 0, 0).unwrap();
    let newer = Utc.with_ymd_and_hms(2024, 6, 5, 12, 0, 0).unwrap();
    let as_unix_time = |t: chrono::DateTime<Utc>| UnixTime { seconds: t.timestamp(), nanos: 0 };
    let walk = WalkResult {
        files: vec!["/d/older.txt".to_string(), "/d/newer.txt".to_string()],
        symlink_skip_count: 0,
        organized_folder_skip_count: 0,
        hidden_skip_count: 0,
    };
    let modified = vec![Some(as_unix_time(older)), Some(as_unix_time(newer))];
    let result = group_walk_result(walk, Strategy::Date, &Vec::new(), &modified);
    assert!(result.get("2023-01").is_some());
    assert!(result.get("2024-06").is_some());
}

#[test]
fn atomic_move_with_unique_name_collision() {
    // "file.txt" is taken in the target, so the second try is used.
    assert_eq!(candidate_name("/src/file.txt", 0), "file.txt");
    let second = candidate_path("/target", "/src/file.txt", 1);
    assert_eq!(second, "/target/file_1.txt");
    assert_eq!(ocorganize_core::file_name(&second).unwrap(), "file_1.txt");
}

#[test]
fn is_organized_category_folder_name_cases() {
    assert!(is_organized_category_folder_name("no_extension"));
    assert!(is_organized_category_folder_name("TXT_FILES"));
    assert!(is_organized_category_folder_name("2024-06_FILES"));
    assert!(!is_organized_category_folder_name("Photos"));
    assert!(!is_organized_category_folder_name("TXT"));
}

#[test]
fn group_files_skips_hidden_organized_and_nested_files() {
    let root = "/data/root";
    let entries = vec![
        dir(root),
        file("/data/root/visible.txt"),
        file("/data/root/.hidden"),
        dir("/data/root/projects"),
        file("/data/root/projects/nested.js"),
        dir("/data/root/TXT_FILES"),
        file("/data/root/TXT_FILES/already_sorted.txt"),
    ];
    let walk = collect_loose_root_files(root, &entries);
    let result = group_walk_result(walk, Strategy::Type, &Vec::new(), &Vec::new());
    let all: Vec<String> = result.grouped.iter().flat_map(|g| g.files.clone()).collect();
    assert_eq!(all.len(), 1);
    assert_eq!(ocorganize_core::file_name(&all[0]).unwrap(), "visible.txt");
}

#[test]
fn loose_root_scan_skips_nested_fixture() {
    let root = "/fixtures/nested";
    let entries = vec![
        dir(root),
        file("/fixtures/nested/top.txt"),
        dir("/fixtures/nested/level1"),
        file("/fixtures/nested/level1/inner.txt"),
        dir("/fixtures/nested/level1/level2"),
        file("/fixtures/nested/level1/level2/deep.md"),
    ];
    let walk = collect_loose_root_files(root, &entries);
    let result = group_walk_result(walk, Strategy::Type, &Vec::new(), &Vec::new());
    let total: usize = result.grouped.iter().map(|g| g.files.len()).sum();
    assert_eq!(total, 1);
}

#[test]
fn get_target_folder_name_cases() {
    assert_eq!(get_target_folder_name("no_extension", Strategy::Type), "no_extension");
    assert_eq!(get_target_folder_name("Image", Strategy::Type), "IMAGE_FILES");
    assert_eq!(get_target_folder_name("Small (< 1MB)", Strategy::Size), "SMALL_<_1MB_FILES");
}

#[test]
fn runtime_profile_tiers() {
    let low = RuntimeProfile::from_specs(2, 2 * 1024 * 1024 * 1024);
    assert_eq!(low.tier, PerformanceTier::Low);
    assert_eq!(low.move_concurrency, 1);

    let standard = RuntimeProfile::from_specs(6, 6 * 1024 * 1024 * 1024);
    assert_eq!(standard.tier, PerformanceTier::Standard);

    let high = RuntimeProfile::from_specs(12, 16 * 1024 * 1024 * 1024);
    assert_eq!(high.tier, PerformanceTier::High);
    assert!(high.move_concurrency > 1);
}

#[test]
fn parallel_move_collision_safety() {
    let moved_a = candidate_path("/target", "/source/a.txt", 0);
    let moved_b = candidate_path("/target", "/source/b.txt", 0);
    assert_ne!(moved_a, moved_b);
    assert_ne!(candidate_path("/target", "/source/file.txt", 1), candidate_path("/target", "/source/file.txt", 2));
}

#[test]
fn undo_log_writer_round_trip() {
    let mut writer = UndoLogWriter::new("/tmp/dir", 2);
    let mut text = ocorganize_core::undo_log_opening();
    text.push_str(&writer.push(UndoEntry {
        from: "/tmp/dir/txt/file.txt".to_string(),
        to: "/tmp/dir/txt/file_1.txt".to_string(),
        timestamp: "2024-01-01T00:00:00Z".to_string(),
    }));
    text.push_str(&writer.push(UndoEntry {
        from: "/tmp/dir/pdf/doc.pdf".to_string(),
        to: "/tmp/dir/pdf/doc.pdf".to_string(),
        timestamp: "2024-01-01T00:00:01Z".to_string(),
    }));
    let (closing, _path) = writer.finish(Vec::new());
    text.push_str(&closing);

    let entries = parse_log(&text);
    assert_eq!(entries.len(), 2);
}

#[test]
fn organize_uses_precomputed_groups() {
    let root = "/data/root";
    let walk = collect_loose_root_files(root, &vec![file("/data/root/a.txt"), file("/data/root/b.pdf")]);
    let grouped = group_walk_result(walk, Strategy::Type, &Vec::new(), &Vec::new());
    let profile = RuntimeProfile::from_specs(2, 1024);
    let plan = plan_organization(root, Strategy::Type, &grouped, &profile).unwrap();

    assert_eq!(plan.total_files, 2);
    assert_eq!(grouped.total_files(), 2);
    assert_eq!(plan.plans.len(), 1);
    assert_eq!(plan.plans[0].target_dir, "/data/root/DOCUMENT_FILES");
    assert_eq!(plan.plans[0].files, vec!["/data/root/a.txt".to_string(), "/data/root/b.pdf".to_string()]);
}

#[test]
fn restore_undo_log_round_trip() {
    let moved = "/data/root/TXT_FILES/file.txt";
    let original = "/data/root/file.txt";
    let log = write_undo_log(
        "/data/root",
        &vec![UndoEntry {
            from: moved.to_string(),
            to: original.to_string(),
            timestamp: "2024-01-01T00:00:00Z".to_string(),
        }],
    );
    let entries = parse_log(&log.text);
    let step = restore_move(&entries[0]);
    assert_eq!(step.current, moved);
    assert_eq!(step.original, original);
    assert_eq!(step.create_dir, Some("/data/root".to_string()));

    let result = UndoRestoreResult::from_outcomes(&vec![true]);
    assert_eq!(result.restored_count, 1);
    assert_eq!(result.failed_count, 0);
    assert!(result.removes_log());
}

#[test]
fn categorize_extension_known_and_unknown() {
    assert_eq!(categorize_extension(Some("jpg")), "Image");
    assert_eq!(categorize_extension(Some("MP4")), "Video");
    assert_eq!(categorize_extension(Some("pdf")), "Document");
    assert_eq!(categorize_extension(Some("xyz")), "xyz");
    assert_eq!(categorize_extension(None), "no_extension");
    assert!(is_known_file_type("Image"));
    assert!(!is_known_file_type("xyz"));
}

#[test]
fn strategy_try_from_str_accepts_legacy_extension_alias() {
    assert_eq!(Strategy::try_from_str("extension").unwrap(), Strategy::Type);
}

#[test]
fn strategy_try_from_str_rejects_unknown() {
    assert!(Strategy::try_from_str("invalid").is_err());
}

#[test]
fn write_undo_log_compat() {
    let entries = vec![UndoEntry {
        from: "/tmp/from.txt".to_string(),
        to: "/tmp/to.txt".to_string(),
        timestamp: "2024-01-01T00:00:00Z".to_string(),
    }];
    let log = write_undo_log("/tmp/logs", &entries);
    let loaded = parse_log(&log.text);
    assert_eq!(loaded, entries);
}

#[test]
fn canonicalize_failures_map_to_errors() {
    let missing = validate(
        "/nope",
        vec![
            ProbeOutcome::IsSymlink(false),
            ProbeOutcome::Canonical(Err(CanonicalizeFailure { not_found: true, message: "gone".to_string() })),
        ],
    );
    assert_eq!(missing, DirectoryCheck::Done(Err(PathValidationError::NotFound)));
    let denied = validate(
        "/locked",
        vec![
            ProbeOutcome::IsSymlink(false),
            ProbeOutcome::Canonical(Err(CanonicalizeFailure { not_found: false, message: "denied".to_string() })),
        ],
    );
    assert_eq!(denied, DirectoryCheck::Done(Err(PathValidationError::InvalidDirectory("denied".to_string()))));
}
