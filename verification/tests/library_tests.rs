use std::path::Path;
use ocorganize_core::{
    advance_directory_validation, build_move_plans, categorize_extension, categorize_path, collect_loose_root_files, expand_home,
    extension, file_stem, get_target_folder_name, group_by_file_type, group_by_keys, group_pairs,
    group_walk_result, is_finder_visible, is_organized_category_dir, is_organized_category_folder_name, join, move_tasks,
    organize_summary, parent, path_inside_organized_category_folder, plan_organization, preview_from_group_result,
    preview_summary, progress_event, scan_progress_events, should_emit_progress, should_prune_category_dir,
    size_bucket, start_directory_validation, undo_entry, undo_entry_at, undo_summary, walk_grouped_files,
    write_undo_log, CategoryGroup, DirectoryCheck, EntryObservation, EntryVerdict, MoveTally, OrganizeResult,
    PathValidationError, ProbeOutcome, RuntimeProfile, Strategy, UndoEntry, UndoLogWriter, UndoRestoreResult,
};

fn file(path: &str) -> EntryObservation {
    EntryObservation {
        path: path.to_string(),
        is_symlink: false,
        is_dir: false,
        is_file: true,
        marked_dirs: Vec::new(),
        platform_hidden: false,
    }
}

fn entry(from: &str, to: &str) -> UndoEntry {
    UndoEntry { from: from.to_string(), to: to.to_string(), timestamp: "2024-01-01T00:00:00Z".to_string() }
}

fn strings(items: &[&str]) -> Vec<String> {
    items.iter().map(|s| s.to_string()).collect()
}

#[test]
fn path_helpers() {
    assert_eq!(parent("/a/b.txt"), Some("/a".to_string()));
    assert_eq!(parent("/b.txt"), Some("/".to_string()));
    assert_eq!(parent("b.txt"), Some("".to_string()));
    assert_eq!(parent("/"), None);
    assert_eq!(parent(""), None);
    assert_eq!(join("/a", "b"), "/a/b");
    assert_eq!(join("/", "b"), "/b");
    assert_eq!(join("/a", "/etc"), "/etc");
    assert_eq!(extension("/a/archive.tar.gz"), Some("gz".to_string()));
    assert_eq!(extension("/a/.bashrc"), None);
    assert_eq!(extension("/a/noext"), None);
    assert_eq!(extension("/a/trailing."), Some("".to_string()));
    assert_eq!(file_stem("/a/archive.tar.gz"), Some("archive.tar".to_string()));
    assert_eq!(file_stem("/a/.bashrc"), Some(".bashrc".to_string()));
    assert_eq!(ocorganize_core::file_name("/a/.."), None);
}

#[test]
fn finder_visibility() {
    assert!(is_finder_visible("/r/visible.txt", "/r"));
    assert!(!is_finder_visible("/r/.hidden", "/r"));
    assert!(!is_finder_visible("/r/.git/config", "/r"));
    assert!(is_finder_visible("/home/.me/r/file", "/home/.me/r"));
    assert!(is_finder_visible("/r/../x", "/r"));
}

#[test]
fn categorize_path_trims_and_lowercases() {
    assert_eq!(categorize_path("/r/photo.JPG"), "Image");
    assert_eq!(categorize_path("/r/notes. PDF "), "Document");
    assert_eq!(categorize_path("/r/empty. "), "no_extension");
    assert_eq!(categorize_path("/r/Makefile"), "no_extension");
    assert_eq!(categorize_path("/r/data.Weird"), "weird");
}

#[test]
fn trimming_removes_unicode_white_space() {
    assert_eq!(categorize_path("/r/notes.\u{3000}pdf\u{a0}"), "Document");
    assert_eq!(categorize_path("/r/notes.\u{2003}\u{85}"), "no_extension");
    assert_eq!(categorize_path("/r/notes.\u{200b}pdf"), "\u{200b}pdf");
    assert_eq!(
        start_directory_validation("\u{2028}/x\t", None),
        DirectoryCheck::CheckSymlink("/x".to_string())
    );
}

#[test]
fn ts_extension_is_code() {
    assert_eq!(categorize_path("/r/clip.ts"), "Code");
    assert_eq!(categorize_path("/r/clip.m2ts"), "Video");
}

#[test]
fn target_folders_are_category_folders() {
    for (category, strategy) in [
        ("Image", Strategy::Type),
        ("no_extension", Strategy::Type),
        ("no_extension", Strategy::Size),
        ("Very Large (> 100MB)", Strategy::Size),
        ("2024-06", Strategy::Date),
        ("xyz", Strategy::Type),
    ] {
        let folder = get_target_folder_name(category, strategy);
        assert!(is_organized_category_folder_name(&folder), "{folder}");
    }
    assert_eq!(get_target_folder_name("no_extension", Strategy::Size), "NO_EXTENSION_FILES");
    assert_eq!(get_target_folder_name("Disk Image", Strategy::Type), "DISK_IMAGE_FILES");
}

#[test]
fn category_dir_by_name_or_marker() {
    assert!(is_organized_category_dir("/r/PDF_FILES", false));
    assert!(is_organized_category_dir("/r/Photos", true));
    assert!(!is_organized_category_dir("/r/Photos", false));
    assert!(should_prune_category_dir("/r/no_extension", "no_extension", false));
    assert!(!should_prune_category_dir("/r/src", "src", false));
}

#[test]
fn inside_category_folder() {
    let none: Vec<String> = Vec::new();
    assert!(path_inside_organized_category_folder("/r/TXT_FILES/a.txt", "/r", &none));
    assert!(path_inside_organized_category_folder("/r/TXT_FILES/sub/a.txt", "/r", &none));
    assert!(!path_inside_organized_category_folder("/r/a.txt", "/r", &none));
    assert!(!path_inside_organized_category_folder("/r/Photos/a.txt", "/r", &none));
    assert!(path_inside_organized_category_folder("/r/Photos/a.txt", "/r", &strings(&["/r/Photos"])));
    assert!(!path_inside_organized_category_folder("/TXT_FILES/a.txt", "/r", &none));
}

#[test]
fn entry_verdicts() {
    let root = "/r";
    let hidden_by_flag = EntryObservation { platform_hidden: true, ..file("/r/flagged.txt") };
    let fifo = EntryObservation { is_file: false, ..file("/r/pipe") };
    let entries = vec![file("/r"), file("/r/a.txt"), hidden_by_flag, fifo, file("/r/.dot")];
    let verdicts: Vec<EntryVerdict> = entries.iter().map(|e| ocorganize_core::walk::entry_verdict(e, root)).collect();
    assert_eq!(
        verdicts,
        vec![EntryVerdict::Root, EntryVerdict::Loose, EntryVerdict::Hidden, EntryVerdict::NotAFile, EntryVerdict::Hidden]
    );
    let walk = collect_loose_root_files(root, &entries);
    assert_eq!(walk.files, strings(&["/r/a.txt"]));
    assert_eq!(walk.hidden_skip_count, 2);
    assert_eq!(walk.symlink_skip_count, 0);
}

#[test]
fn size_buckets_edges() {
    let mib = 1024u64 * 1024;
    assert_eq!(size_bucket(0), "Small (< 1MB)");
    assert_eq!(size_bucket(mib - 1), "Small (< 1MB)");
    assert_eq!(size_bucket(mib), "Medium (1MB - 10MB)");
    assert_eq!(size_bucket(10 * mib - 1), "Medium (1MB - 10MB)");
    assert_eq!(size_bucket(10 * mib), "Large (10MB - 100MB)");
    assert_eq!(size_bucket(100 * mib), "Very Large (> 100MB)");
    assert_eq!(size_bucket(u64::MAX), "Very Large (> 100MB)");
}

#[test]
fn grouping_is_sorted_and_complete() {
    let pairs = vec![
        ("b".to_string(), "/r/1".to_string()),
        ("a".to_string(), "/r/2".to_string()),
        ("b".to_string(), "/r/3".to_string()),
        ("c".to_string(), "/r/4".to_string()),
    ];
    let groups = group_pairs(&pairs);
    let categories: Vec<&str> = groups.iter().map(|g| g.category.as_str()).collect();
    assert_eq!(categories, vec!["a", "b", "c"]);
    assert_eq!(groups[1].files, strings(&["/r/1", "/r/3"]));

    let files = strings(&["/r/x", "/r/y", "/r/z"]);
    let keys = vec![Some("k".to_string()), None, Some("k".to_string())];
    let grouped = group_by_keys(&files, &keys);
    assert_eq!(grouped.len(), 1);
    assert_eq!(grouped[0].files, strings(&["/r/x", "/r/z"]));

    let typed = group_by_file_type(&strings(&["/r/a.png", "/r/b.txt", "/r/c.PNG"]));
    let total: usize = typed.iter().map(|g| g.files.len()).sum();
    assert_eq!(total, 3);
}

#[test]
fn walk_order_and_scan_progress() {
    let groups = vec![
        CategoryGroup { category: "Document".to_string(), files: strings(&["/r/z.txt", "/r/a.txt"]) },
        CategoryGroup { category: "Image".to_string(), files: strings(&["/r/p.png"]) },
    ];
    let visits = walk_grouped_files(&groups);
    assert_eq!(
        visits,
        vec![
            ("Document".to_string(), "/r/a.txt".to_string()),
            ("Document".to_string(), "/r/z.txt".to_string()),
            ("Image".to_string(), "/r/p.png".to_string()),
        ]
    );
    let events = scan_progress_events(&groups, 3, 2);
    let seen: Vec<(String, String, usize)> =
        events.iter().map(|e| (e.category.clone(), e.file_name.clone(), e.processed_files)).collect();
    assert_eq!(
        seen,
        vec![("Document".to_string(), "z.txt".to_string(), 2), ("Image".to_string(), "p.png".to_string(), 3)]
    );
}

#[test]
fn progress_reports() {
    assert!(should_emit_progress(40, 100, 20));
    assert!(!should_emit_progress(41, 100, 20));
    assert!(should_emit_progress(7, 7, 20));
    assert!(progress_event("Image", "/r/a.png", 3, 10, 5).is_none());
    let e = progress_event("Image", "/r/a.png", 10, 10, 5).unwrap();
    assert_eq!((e.category.as_str(), e.file_name.as_str(), e.processed_files, e.total_files), ("Image", "a.png", 10, 10));
    let mut tally = MoveTally::new(2, 20);
    assert!(tally.record_move("Image", "/r/a.png").is_none());
    assert!(tally.record_move("Image", "/r/b.png").is_some());
    assert_eq!(tally.organized_count, 2);
}

#[test]
fn move_plans_and_tasks() {
    let groups = vec![
        CategoryGroup { category: "Image".to_string(), files: strings(&["/r/b.png", "/r/a.png"]) },
        CategoryGroup { category: "Small (< 1MB)".to_string(), files: strings(&["/r/x"]) },
    ];
    let plans = build_move_plans("/r", Strategy::Size, &groups);
    assert_eq!(plans[0].target_dir, "/r/IMAGE_FILES");
    assert_eq!(plans[0].files, strings(&["/r/a.png", "/r/b.png"]));
    assert_eq!(plans[1].target_dir, "/r/SMALL_<_1MB_FILES");
    let tasks = move_tasks(&plans);
    assert_eq!(tasks.len(), 3);
    assert_eq!(tasks[2].file_path, "/r/x");
    assert_eq!(tasks[2].category, "Small (< 1MB)");
}

#[test]
fn nothing_to_organize() {
    let walk = collect_loose_root_files("/r", &vec![file("/r/.only_hidden")]);
    let grouped = group_walk_result(walk, Strategy::Type, &Vec::new(), &Vec::new());
    let profile = RuntimeProfile::from_specs(4, 8 * 1024 * 1024 * 1024);
    assert!(plan_organization("/r", Strategy::Type, &grouped, &profile).is_none());
    let result = OrganizeResult::nothing_to_organize(grouped);
    assert_eq!((result.organized_count, result.category_count), (0, 0));
    assert!(result.undo_file.is_none());
}

#[test]
fn preview_and_summaries() {
    let mut entries = Vec::new();
    for i in 0..12 {
        entries.push(file(&format!("/r/f{i:02}.txt")));
    }
    entries.push(file("/r/pic.png"));
    entries.push(EntryObservation { is_symlink: true, is_file: false, ..file("/r/link") });
    let walk = collect_loose_root_files("/r", &entries);
    let grouped = group_walk_result(walk, Strategy::Type, &Vec::new(), &Vec::new());
    let preview = preview_from_group_result("/r", Strategy::Type, &grouped);
    assert_eq!(preview.strategy, "type");
    assert_eq!(preview.total_files, 13);
    assert_eq!(preview.category_count, 2);
    assert_eq!(preview.symlink_skip_count, 1);
    assert_eq!(preview.categories[0].category, "Document");
    assert_eq!(preview.categories[0].folder_name, "DOCUMENT_FILES");
    assert_eq!(preview.categories[0].file_count, 12);
    assert_eq!(preview.categories[0].sample_files.len(), 10);
    assert_eq!(preview.categories[0].sample_files[0], "f00.txt");

    let summary = preview_summary(&grouped);
    assert!(summary.preview_only);
    assert_eq!((summary.organized_count, summary.category_count), (13, 2));

    let result = OrganizeResult::nothing_to_organize(grouped);
    let moved = organize_summary(&result);
    assert!(!moved.preview_only);

    let undo = undo_summary(&UndoRestoreResult::from_outcomes(&vec![true, false, true]));
    assert_eq!((undo.restored_count, undo.failed_count, undo.partial), (2, 1, true));
}

#[test]
fn restore_tally() {
    let all_ok = UndoRestoreResult::from_outcomes(&vec![true, true]);
    assert!(!all_ok.partial());
    assert!(all_ok.removes_log());
    let some_failed = UndoRestoreResult::from_outcomes(&vec![false, true]);
    assert!(some_failed.partial());
    assert!(!some_failed.removes_log());
    assert_eq!(some_failed.restored_count + some_failed.failed_count, 2);
}

#[test]
fn undo_entries_and_log_text() {
    let e = undo_entry_at("/r/TXT_FILES/a.txt", "/r/a.txt", "2024-01-01T00:00:00Z");
    assert_eq!(e, entry("/r/TXT_FILES/a.txt", "/r/a.txt"));
    let now = undo_entry("/r/X_FILES/b", "/r/b");
    assert_eq!(now.from, "/r/X_FILES/b");
    assert_eq!(now.to, "/r/b");
    assert!(!now.timestamp.is_empty());

    let log = write_undo_log("/r", &vec![entry("/r/B/2", "/r/2"), entry("/r/A/1", "/r/1")]);
    assert!(log.path.starts_with("/r/undo_file_organization_"));
    assert!(log.path.ends_with(".json"));
    assert_eq!(
        log.text,
        "[\n{\"from\":\"/r/A/1\",\"to\":\"/r/1\",\"timestamp\":\"2024-01-01T00:00:00Z\"},\n{\"from\":\"/r/B/2\",\"to\":\"/r/2\",\"timestamp\":\"2024-01-01T00:00:00Z\"}\n]\n"
    );
    let empty = write_undo_log("/r", &Vec::new());
    assert_eq!(empty.text, "[\n\n]\n");
}

#[test]
fn undo_log_escapes_like_serde_json() {
    let tricky = UndoEntry {
        from: "/r/quote\"back\\slash".to_string(),
        to: "/r/ctl\u{1}\n\t".to_string(),
        timestamp: "é".to_string(),
    };
    let log = write_undo_log("/r", &vec![tricky.clone()]);
    let value: serde_json::Value = serde_json::from_str(&log.text).unwrap();
    assert_eq!(value[0]["from"], tricky.from.as_str());
    assert_eq!(value[0]["to"], tricky.to.as_str());
    assert!(log.text.contains("\\u0001"));
}

#[test]
fn writer_flushes_in_batches_and_sorts_the_rest() {
    let mut writer = UndoLogWriter::new_at("/r", 2, "20240101_000000");
    assert_eq!(writer.path(), "/r/undo_file_organization_20240101_000000.json");
    let first = writer.push(entry("/r/Z/z", "/r/z"));
    assert_eq!(first, "");
    let second = writer.push(entry("/r/Y/y", "/r/y"));
    assert!(second.starts_with("{\"from\":\"/r/Z/z\""));
    writer.push(entry("/r/C/c", "/r/c"));
    let (closing, _) = writer.finish(vec![entry("/r/B/b", "/r/b")]);
    assert!(closing.starts_with(",\n{\"from\":\"/r/B/b\""));
    assert!(closing.ends_with("\n]\n"));

    let mut dropped = UndoLogWriter::new_at("/r", 10, "x");
    dropped.push(entry("/r/Q/q", "/r/q"));
    dropped.push(entry("/r/P/p", "/r/p"));
    let text = dropped.abandon();
    assert!(text.starts_with("{\"from\":\"/r/Q/q\""));
    assert!(text.ends_with("\n]\n"));
}

#[test]
fn directory_validation_errors() {
    assert_eq!(start_directory_validation("   ", None), DirectoryCheck::Done(Err(PathValidationError::Empty)));
    assert_eq!(start_directory_validation("/a\0b", None), DirectoryCheck::Done(Err(PathValidationError::InvalidPath)));
    assert_eq!(start_directory_validation("  /x  ", None), DirectoryCheck::CheckSymlink("/x".to_string()));
    assert_eq!(
        start_directory_validation("~/Downloads", Some("/home/me")),
        DirectoryCheck::CheckSymlink("/home/me/Downloads".to_string())
    );
    assert_eq!(start_directory_validation("~", Some("/home/me")), DirectoryCheck::CheckSymlink("/home/me".to_string()));
    assert_eq!(expand_home("~/x", None), "~/x");

    let read_only = advance_directory_validation(
        DirectoryCheck::ReadPermissions("/x".to_string()),
        ProbeOutcome::Permissions(Ok(true)),
    );
    assert_eq!(read_only, DirectoryCheck::Done(Err(PathValidationError::NotAccessible)));
    let unreadable = advance_directory_validation(
        DirectoryCheck::ReadPermissions("/x".to_string()),
        ProbeOutcome::Permissions(Err("io".to_string())),
    );
    assert_eq!(unreadable, DirectoryCheck::Done(Err(PathValidationError::InvalidDirectory("io".to_string()))));
    let mismatched = advance_directory_validation(DirectoryCheck::CheckIsDir("/x".to_string()), ProbeOutcome::IsSymlink(true));
    assert_eq!(mismatched, DirectoryCheck::CheckIsDir("/x".to_string()));
}

#[test]
fn error_messages() {
    assert_eq!(PathValidationError::Empty.message(), "Please select a directory.");
    assert_eq!(PathValidationError::InvalidPath.message(), "Invalid directory path.");
    assert_eq!(PathValidationError::SymlinkedDirectory.message(), "Symlinked directories are not supported.");
    assert_eq!(PathValidationError::NotFound.message(), "Directory does not exist.");
    assert_eq!(PathValidationError::InvalidDirectory("x".to_string()).message(), "Invalid directory: x");
    assert_eq!(PathValidationError::NotADirectory.message(), "Selected path is not a directory.");
    assert_eq!(PathValidationError::NotAccessible.message(), "Directory must be readable and writable.");
}

#[test]
fn strategy_names_round_trip() {
    for s in [Strategy::Type, Strategy::Size, Strategy::Date] {
        assert_eq!(Strategy::try_from_str(s.as_str()).unwrap(), s);
    }
    assert_eq!(Strategy::try_from_str("bogus").unwrap_err(), "Unknown strategy: bogus");
}

fn grouping_of(files: &[&str]) -> ocorganize_core::GroupResult {
    let files = strings(files);
    ocorganize_core::GroupResult {
        grouped: group_by_file_type(&files),
        symlink_skip_count: 0,
        organized_folder_skip_count: 0,
        hidden_skip_count: 0,
        files,
    }
}

#[test]
fn scan_cache_hands_back_a_matching_grouping_once() {
    let mut slot = ocorganize_core::ScanCacheSlot::new();
    assert!(slot.take_matching("/r", Strategy::Type).is_none());

    slot.store("/r".to_string(), Strategy::Type, grouping_of(&["/r/a.pdf", "/r/b.jpg"]));
    assert!(slot.take_matching("/r", Strategy::Size).is_none());
    assert!(slot.take_matching("/other", Strategy::Type).is_none());
    let hit = slot.take_matching("/r", Strategy::Type).unwrap();
    assert_eq!(hit.files, strings(&["/r/a.pdf", "/r/b.jpg"]));
    assert_eq!(hit.grouped.len(), 2);
    assert!(slot.take_matching("/r", Strategy::Type).is_none());
}

#[test]
fn scan_cache_after_organize_runs() {
    let mut slot = ocorganize_core::ScanCacheSlot::new();
    slot.record_organize_run("/r".to_string(), Strategy::Size, true, false, grouping_of(&["/r/x.txt"]));
    assert!(slot.entry.is_some());

    slot.record_organize_run("/r".to_string(), Strategy::Size, false, false, grouping_of(&[]));
    let kept = slot.take_matching("/r", Strategy::Size).unwrap();
    assert_eq!(kept.files, strings(&["/r/x.txt"]));

    slot.store("/r".to_string(), Strategy::Date, grouping_of(&["/r/y.txt"]));
    slot.record_organize_run("/r".to_string(), Strategy::Date, false, true, grouping_of(&[]));
    assert!(slot.entry.is_none());

    slot.store("/r".to_string(), Strategy::Date, grouping_of(&["/r/y.txt"]));
    slot.clear();
    assert!(slot.take_matching("/r", Strategy::Date).is_none());
}

#[test]
fn undo_history_undoes_the_latest_run_first() {
    let mut history = ocorganize_core::UndoHistory::new();
    assert!(!history.has_operations());
    assert_eq!(history.take_latest(), Err("No operations to undo.".to_string()));

    history.record("/r/undo_1.json".to_string());
    history.record("/r/undo_2.json".to_string());
    assert!(history.has_operations());
    assert_eq!(history.take_latest(), Ok("/r/undo_2.json".to_string()));
    assert_eq!(history.take_latest(), Ok("/r/undo_1.json".to_string()));
    assert!(!history.has_operations());
    assert_eq!(history.take_latest(), Err("No operations to undo.".to_string()));
}

#[test]
fn date_keys_are_year_and_month() {
    let files = strings(&["/d/a.txt", "/d/b.txt", "/d/c.txt", "/d/far.txt"]);
    let modified = vec![
        Some(ocorganize_core::UnixTime { seconds: 1_700_000_000, nanos: 5 }),
        None,
        Some(ocorganize_core::UnixTime { seconds: -86_400 * 400, nanos: 0 }),
        Some(ocorganize_core::UnixTime { seconds: i64::MAX, nanos: 0 }),
    ];
    let groups = ocorganize_core::group_by_date(&files, &modified);
    let total: usize = groups.iter().map(|g| g.files.len()).sum();
    assert_eq!(total, 2);
    let keys: Vec<&str> = groups.iter().map(|g| g.category.as_str()).collect();
    assert_eq!(keys, vec!["1968-11", "2023-11"]);
    for g in &groups {
        let k: Vec<char> = g.category.chars().collect();
        assert_eq!(k.len(), 7);
        assert_eq!(k[4], '-');
        assert!(k.iter().enumerate().all(|(i, c)| i == 4 || c.is_ascii_digit()));
    }
}

#[test]
fn preview_needs_no_file_list() {
    let photos: Vec<String> = (0..=10).map(|i| format!("/r/p{i}.jpg")).collect();
    let unordered = ocorganize_core::GroupResult {
        grouped: vec![
            CategoryGroup { category: "Image".to_string(), files: Vec::new() },
            CategoryGroup { category: "Audio".to_string(), files: Vec::new() },
        ],
        symlink_skip_count: 0,
        organized_folder_skip_count: 0,
        hidden_skip_count: 0,
        files: Vec::new(),
    };
    assert!(!unordered.is_well_formed());
    let result = ocorganize_core::GroupResult {
        grouped: vec![
            CategoryGroup { category: "Audio".to_string(), files: strings(&["/r/s.mp3"]) },
            CategoryGroup { category: "Image".to_string(), files: photos },
        ],
        symlink_skip_count: 3,
        organized_folder_skip_count: 0,
        hidden_skip_count: 0,
        files: Vec::new(),
    };
    assert!(result.is_well_formed());
    let preview = preview_from_group_result("/r", Strategy::Type, &result);
    assert_eq!(preview.total_files, 12);
    assert_eq!(preview.category_count, 2);
    assert_eq!(preview.symlink_skip_count, 3);
    assert_eq!(preview.categories[0].category, "Audio");
    assert_eq!(preview.categories[0].folder_name, "AUDIO_FILES");
    assert_eq!(preview.categories[0].sample_files, strings(&["s.mp3"]));
    assert_eq!(preview.categories[1].category, "Image");
    assert_eq!(preview.categories[1].file_count, 11);
    let expected: Vec<String> = (0..10).map(|i| format!("p{i}.jpg")).collect();
    assert_eq!(preview.categories[1].sample_files, expected);
}

#[test]
fn path_functions_agree_with_std_path() {
    let samples = [
        "", "/", "//", "a", "a/", "a.txt/", "a.txt/.", "a.txt/./", "a.txt/..", "/r/TXT_FILES/", "/r//x//y.pdf",
        "./a", ".", "./", "..", "../a", "/..", "/a/./b/.", "a/../b", "/.hidden/x", "x/.y", "/a/b.c.d",
        "/a/.bashrc", "/a/trailing.", "./.a", "a/./.", "/./a", "dir//", "/a/b/",
    ];
    for p in samples {
        let std_path = Path::new(p);
        let ours = ocorganize_core::file_name(p);
        let theirs = std_path.file_name().map(|n| n.to_str().unwrap().to_string());
        assert_eq!(ours, theirs, "file_name of {p:?}");
        let ours_parent = parent(p);
        let theirs_parent = std_path.parent();
        assert_eq!(ours_parent.is_some(), theirs_parent.is_some(), "parent of {p:?}");
        if let (Some(a), Some(b)) = (&ours_parent, theirs_parent) {
            assert_eq!(Path::new(a), b, "parent of {p:?}");
        }
        let ext = extension(p);
        assert_eq!(ext, std_path.extension().map(|e| e.to_str().unwrap().to_string()), "extension of {p:?}");
        let stem = file_stem(p);
        assert_eq!(stem, std_path.file_stem().map(|e| e.to_str().unwrap().to_string()), "stem of {p:?}");
        for base in ["", "/", "/r", "a", "./a", "/r/", "a.txt"] {
            assert_eq!(
                ocorganize_core::starts_with_path(p, base),
                std_path.starts_with(base),
                "{p:?} starts with {base:?}"
            );
            assert_eq!(
                ocorganize_core::is_loose_file_at_root(p, base),
                std_path.parent() == Some(Path::new(base)),
                "{p:?} loose at {base:?}"
            );
        }
    }
}

#[test]
fn trailing_separators_name_the_same_entry() {
    assert_eq!(categorize_path("a.txt/"), "Document");
    assert!(is_organized_category_dir("/r/TXT_FILES/", false));
    assert!(is_organized_category_dir("/r/TXT_FILES/.", false));
    assert!(path_inside_organized_category_folder("/r//TXT_FILES/./a.txt", "/r/", &Vec::new()));
    assert!(ocorganize_core::is_loose_file_at_root("/r//a.txt", "/r/"));
    assert!(!is_finder_visible("/r/./.git//config", "/r"));
}

#[test]
fn files_sort_as_paths_sort() {
    let files = strings(&["/a.b", "/a/b", "/a/./c", "/a//a", "b", "./x", "/", "../y", "/a/..", "/A", "/a-b"]);
    let ours = ocorganize_core::sort_paths(files.clone());
    let mut theirs: Vec<std::path::PathBuf> = files.iter().map(std::path::PathBuf::from).collect();
    theirs.sort();
    let ours_paths: Vec<std::path::PathBuf> = ours.iter().map(std::path::PathBuf::from).collect();
    assert_eq!(ours_paths, theirs);
    let walk = walk_grouped_files(&vec![CategoryGroup { category: "x".to_string(), files: strings(&["/a.b", "/a/b"]) }]);
    assert_eq!(walk[0].1, "/a/b");
    assert_eq!(walk[1].1, "/a.b");
}

#[test]
fn candidate_names_from_parts() {
    assert_eq!(ocorganize_core::candidate_name_from_parts(None, None, 0), "file");
    assert_eq!(ocorganize_core::candidate_name_from_parts(None, Some("txt"), 2), "file_2.txt");
    assert_eq!(ocorganize_core::candidate_name_from_parts(Some("a"), None, 10), "a_10");
    assert_eq!(ocorganize_core::candidate_name("/src/a.txt/", 1), "a_1.txt");
}

#[test]
fn case_conversion_on_ascii_extensions() {
    assert_eq!(categorize_extension(Some("MP4")), "Video");
    assert_eq!(ocorganize_core::parse_tier_override("HIGH"), ocorganize_core::PerformanceTier::High);
    assert_eq!(ocorganize_core::parse_tier_override("Low"), ocorganize_core::PerformanceTier::Low);
}

#[test]
fn undo_entries_are_stamped_in_rfc3339() {
    let e = undo_entry("/r/TXT_FILES/a.txt", "/r/a.txt");
    let t: Vec<char> = e.timestamp.chars().collect();
    let n = t.len();
    assert!(n >= 25);
    assert!(t[n - 6] == '+' || t[n - 6] == '-');
    assert_eq!(t[n - 3], ':');
    assert!(chrono::DateTime::parse_from_rfc3339(&e.timestamp).is_ok());
}
