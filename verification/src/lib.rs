//! Decision logic of a desktop file organizer: loose files that sit directly in
//! an organization root are grouped (by file type, size bucket or modification
//! month) and moved into category folders, with an undo log that records every
//! move.  The file system itself is touched by the surrounding application;
//! this crate decides what is scanned, how files are grouped and named, where
//! they go, and what the undo log says.
pub mod text;
pub mod order;
pub mod runtime;
pub mod path;
pub mod naming;
pub mod group;
pub mod file_type;
pub mod walk;
pub mod undo;
pub mod error;
pub mod validate;
pub mod organize;
pub mod preview;
pub mod cache;
pub mod history;

pub use cache::{ScanCache, ScanCacheSlot};
pub use error::PathValidationError;
pub use history::UndoHistory;
pub use file_type::{categorize_extension, categorize_normalized, categorize_path, is_known_file_type};
pub use group::{
    group_by_date, group_by_file_type, group_by_keys, group_by_size, group_pairs, group_walk_result, size_bucket,
    sorted_groups, CategoryGroup, GroupResult, Strategy, UnixTime,
};
pub use naming::{
    category_folder_name, get_target_folder_name, is_organized_category_dir, is_organized_category_folder_name,
    normalize_category_label, ORGANIZED_CATEGORY_MARKER,
};
pub use organize::{
    build_move_plans, candidate_name, candidate_name_from_parts, candidate_path, candidate_path_from_parts, move_tasks, plan_organization, progress_event,
    should_emit_progress, CategoryMovePlan, MoveTally, MoveTask, OrganizePlan, OrganizeProgress, OrganizeResult,
};
pub use path::{
    extension, file_name, file_stem, is_finder_visible, is_loose_file_at_root, join, parent,
    is_same_path, path_inside_organized_category_folder, sort_paths, starts_with_path, PathKey,
};
pub use preview::{
    organize_summary, preview_from_group_result, preview_summary, scan_progress_events, undo_summary,
    walk_grouped_files, OrganizeSummary, PreviewCategory, PreviewResult, UndoSummary,
};
pub use runtime::{
    build_profile, classify_tier, memory_bytes_for_tiering, parse_tier_override, PerformanceTier, RuntimeProfile,
};
pub use undo::{
    restore_move, undo_entry, undo_entry_at, undo_log_opening, write_undo_log, RestoreMove, UndoEntry,
    UndoLogFile, UndoLogWriter, UndoRestoreResult,
};
pub use validate::{
    advance_directory_validation, expand_home, start_directory_validation, CanonicalizeFailure, DirectoryCheck,
    ProbeOutcome,
};
pub use walk::{collect_loose_root_files, should_prune_category_dir, EntryObservation, EntryVerdict, WalkResult};
