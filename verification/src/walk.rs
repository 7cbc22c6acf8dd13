//! The loose-root scan: which entries of the organization root are loose,
//! visible files, and how many of the others were skipped and why.
use vstd::prelude::*;

use crate::naming::{is_category_folder_name, is_organized_category_dir, is_organized_category_folder_name, spec_is_organized_category_dir};
use crate::path::{
    is_finder_visible, is_loose_file_at_root, is_same_path, path_inside_organized_category_folder, same_path,
    spec_inside_organized_folder, spec_is_finder_visible, spec_is_loose_file_at_root,
};

verus! {

/// What the scanner observed of one entry it met below the root.
pub struct EntryObservation {
    pub path: String,
    /// The entry is a symbolic link (not followed).
    pub is_symlink: bool,
    pub is_dir: bool,
    pub is_file: bool,
    /// Directories above the entry that hold the category marker file.
    pub marked_dirs: Vec<String>,
    /// The platform flags the entry as hidden (the macOS UF_HIDDEN flag).
    pub platform_hidden: bool,
}

/// Loose, visible files directly in the root, and the number of entries
/// skipped as symlinks, as files inside category folders, and as hidden.
pub struct WalkResult {
    pub files: Vec<String>,
    pub symlink_skip_count: usize,
    pub organized_folder_skip_count: usize,
    pub hidden_skip_count: usize,
}

#[derive(Debug, Clone, Copy, PartialEq, Eq, Structural)]
pub enum EntryVerdict {
    /// The root itself.
    Root,
    Symlink,
    Directory,
    /// Neither a directory nor a regular file.
    NotAFile,
    /// A file that does not sit directly in the root.
    NotLoose,
    /// A file inside a category folder.
    InsideCategoryFolder,
    Hidden,
    /// A loose, visible file: one to organize.
    Loose,
}

/// The verdict on one entry, in the order of the checks of the scan.
pub open spec fn spec_entry_verdict(e: EntryObservation, root: Seq<char>) -> EntryVerdict {
    if same_path(e.path@, root) {
        EntryVerdict::Root
    } else if e.is_symlink {
        EntryVerdict::Symlink
    } else if e.is_dir {
        EntryVerdict::Directory
    } else if !e.is_file {
        EntryVerdict::NotAFile
    } else if !spec_is_loose_file_at_root(e.path@, root) {
        EntryVerdict::NotLoose
    } else if spec_inside_organized_folder(e.path@, root, e.marked_dirs@) {
        EntryVerdict::InsideCategoryFolder
    } else if !spec_is_finder_visible(e.path@, root) || e.platform_hidden {
        EntryVerdict::Hidden
    } else {
        EntryVerdict::Loose
    }
}

/// The paths of the loose entries, in scan order.
pub open spec fn loose_paths(entries: Seq<EntryObservation>, root: Seq<char>) -> Seq<String>
    decreases entries.len(),
{
    if entries.len() == 0 {
        Seq::<String>::empty()
    } else {
        let rest = loose_paths(entries.drop_last(), root);
        if spec_entry_verdict(entries.last(), root) == EntryVerdict::Loose {
            rest.push(entries.last().path)
        } else {
            rest
        }
    }
}

/// How many entries get verdict `v`.
pub open spec fn count_verdict(entries: Seq<EntryObservation>, root: Seq<char>, v: EntryVerdict) -> nat
    decreases entries.len(),
{
    if entries.len() == 0 {
        0
    } else {
        count_verdict(entries.drop_last(), root, v) + if spec_entry_verdict(entries.last(), root) == v {
            1nat
        } else {
            0nat
        }
    }
}

proof fn lemma_count_bounded(entries: Seq<EntryObservation>, root: Seq<char>, v: EntryVerdict)
    ensures
        count_verdict(entries, root, v) <= entries.len(),
    decreases entries.len(),
{
    if entries.len() > 0 {
        lemma_count_bounded(entries.drop_last(), root, v);
    }
}

/// The verdict on one entry.
pub fn entry_verdict(e: &EntryObservation, root: &str) -> (r: EntryVerdict)
    ensures
        r == spec_entry_verdict(*e, root@),
{
    if is_same_path(e.path.as_str(), root) {
        EntryVerdict::Root
    } else if e.is_symlink {
        EntryVerdict::Symlink
    } else if e.is_dir {
        EntryVerdict::Directory
    } else if !e.is_file {
        EntryVerdict::NotAFile
    } else if !is_loose_file_at_root(e.path.as_str(), root) {
        EntryVerdict::NotLoose
    } else if path_inside_organized_category_folder(e.path.as_str(), root, &e.marked_dirs) {
        EntryVerdict::InsideCategoryFolder
    } else if !is_finder_visible(e.path.as_str(), root) || e.platform_hidden {
        EntryVerdict::Hidden
    } else {
        EntryVerdict::Loose
    }
}

/// The loose-root scan over the entries that the walker met below `root`.
pub fn collect_loose_root_files(root: &str, entries: &Vec<EntryObservation>) -> (r: WalkResult)
    ensures
        r.files@ == loose_paths(entries@, root@),
        r.symlink_skip_count == count_verdict(entries@, root@, EntryVerdict::Symlink),
        r.organized_folder_skip_count == count_verdict(
            entries@,
            root@,
            EntryVerdict::InsideCategoryFolder,
        ),
        r.hidden_skip_count == count_verdict(entries@, root@, EntryVerdict::Hidden),
{
    let mut files: Vec<String> = Vec::new();
    let mut symlinks: usize = 0;
    let mut organized: usize = 0;
    let mut hidden: usize = 0;
    let mut i: usize = 0;
    while i < entries.len()
        invariant
            i <= entries.len(),
            files@ == loose_paths(entries@.take(i as int), root@),
            symlinks == count_verdict(entries@.take(i as int), root@, EntryVerdict::Symlink),
            organized == count_verdict(entries@.take(i as int), root@, EntryVerdict::InsideCategoryFolder),
            hidden == count_verdict(entries@.take(i as int), root@, EntryVerdict::Hidden),
        decreases entries.len() - i,
    {
        let ghost prefix = entries@.take(i as int);
        let ghost next = entries@.take(i + 1);
        proof {
            assert(next.drop_last() =~= prefix);
            assert(next.last() == entries@[i as int]);
            lemma_count_bounded(prefix, root@, EntryVerdict::Symlink);
            lemma_count_bounded(prefix, root@, EntryVerdict::InsideCategoryFolder);
            lemma_count_bounded(prefix, root@, EntryVerdict::Hidden);
        }
        let e = &entries[i];
        match entry_verdict(e, root) {
            EntryVerdict::Symlink => symlinks += 1,
            EntryVerdict::InsideCategoryFolder => organized += 1,
            EntryVerdict::Hidden => hidden += 1,
            EntryVerdict::Loose => files.push(e.path.clone()),
            _ => {},
        }
        i += 1;
    }
    assert(entries@.take(entries@.len() as int) =~= entries@);
    WalkResult { files, symlink_skip_count: symlinks, organized_folder_skip_count: organized, hidden_skip_count: hidden }
}

/// Whether the walker should leave a directory's children unread: it is a
/// category folder by its name, or by the marker file inside it.
pub fn should_prune_category_dir(path: &str, file_name: &str, marker_present: bool) -> (r: bool)
    ensures
        r == (is_category_folder_name(file_name@) || spec_is_organized_category_dir(path@, marker_present)),
{
    is_organized_category_folder_name(file_name) || is_organized_category_dir(path, marker_present)
}

/// The scan keeps only loose files: each kept path is a regular file, not a
/// symlink, whose parent is the root, that lies in no category folder and is
/// not hidden.
pub proof fn lemma_scan_keeps_only_loose_files(entries: Seq<EntryObservation>, root: Seq<char>)
    ensures
        forall|k: int|
            0 <= k < loose_paths(entries, root).len() ==> exists|j: int|
                0 <= j < entries.len() && (#[trigger] entries[j]).path == #[trigger] loose_paths(
                    entries,
                    root,
                )[k] && !entries[j].is_symlink && !entries[j].is_dir && entries[j].is_file
                    && spec_is_loose_file_at_root(entries[j].path@, root) && !spec_inside_organized_folder(
                    entries[j].path@,
                    root,
                    entries[j].marked_dirs@,
                ) && spec_is_finder_visible(entries[j].path@, root)
                    && !entries[j].platform_hidden,
    decreases entries.len(),
{
    if entries.len() > 0 {
        let prefix = entries.drop_last();
        lemma_scan_keeps_only_loose_files(prefix, root);
        let kept = loose_paths(entries, root);
        let before = loose_paths(prefix, root);
        assert forall|k: int| 0 <= k < kept.len() implies exists|j: int|
            0 <= j < entries.len() && (#[trigger] entries[j]).path == #[trigger] kept[k]
                && !entries[j].is_symlink && !entries[j].is_dir && entries[j].is_file && spec_is_loose_file_at_root(entries[j].path@, root) && !spec_inside_organized_folder(
                entries[j].path@,
                root,
                entries[j].marked_dirs@,
            ) && spec_is_finder_visible(entries[j].path@, root)
                && !entries[j].platform_hidden by {
            if k < before.len() {
                assert(kept[k] == before[k]);
                let j = choose|j: int|
                    0 <= j < prefix.len() && (#[trigger] prefix[j]).path == #[trigger] before[k]
                        && !prefix[j].is_symlink && !prefix[j].is_dir && prefix[j].is_file
                        && spec_is_loose_file_at_root(prefix[j].path@, root) && !spec_inside_organized_folder(
                        prefix[j].path@,
                        root,
                        prefix[j].marked_dirs@,
                    ) && spec_is_finder_visible(prefix[j].path@, root)
                        && !prefix[j].platform_hidden;
                assert(entries[j] == prefix[j]);
            } else {
                let j = entries.len() - 1;
                assert(entries[j] == entries.last());
            }
        }
    }
}

/// What makes an entry one to organize: a regular file, not a symlink, that
/// is not the root, sits directly in the root, lies in no category folder,
/// has no component below the root that begins with '.', and is not flagged
/// hidden by the platform.
pub open spec fn is_organizable(e: EntryObservation, root: Seq<char>) -> bool {
    &&& !same_path(e.path@, root)
    &&& !e.is_symlink
    &&& !e.is_dir
    &&& e.is_file
    &&& spec_is_loose_file_at_root(e.path@, root)
    &&& !spec_inside_organized_folder(e.path@, root, e.marked_dirs@)
    &&& spec_is_finder_visible(e.path@, root)
    &&& !e.platform_hidden
}

/// An entry is loose exactly when it is one to organize, and it is counted
/// as hidden only for a component below the root that begins with '.' or for
/// the platform's flag.
pub proof fn lemma_loose_exactly_when_organizable(e: EntryObservation, root: Seq<char>)
    ensures
        spec_entry_verdict(e, root) == EntryVerdict::Loose <==> is_organizable(e, root),
        spec_entry_verdict(e, root) == EntryVerdict::Hidden ==> (!spec_is_finder_visible(e.path@, root)
            || e.platform_hidden),
{
}

/// The scan keeps every entry that is one to organize, in scan order: the
/// kept paths are exactly the paths of those entries.
pub proof fn lemma_scan_keeps_every_organizable_file(entries: Seq<EntryObservation>, root: Seq<char>)
    ensures
        forall|j: int|
            0 <= j < entries.len() && is_organizable(#[trigger] entries[j], root) ==> loose_paths(
                entries,
                root,
            ).contains(entries[j].path),
        loose_paths(entries, root) == entries.filter(|e: EntryObservation| is_organizable(e, root)).map_values(
            |e: EntryObservation| e.path,
        ),
    decreases entries.len(),
{
    if entries.len() > 0 {
        let prefix = entries.drop_last();
        let last = entries.last();
        lemma_scan_keeps_every_organizable_file(prefix, root);
        lemma_loose_exactly_when_organizable(last, root);
        let pred = |e: EntryObservation| is_organizable(e, root);
        let f = |e: EntryObservation| e.path;
        assert(entries =~= prefix.push(last));
        prefix.lemma_filter_push(last, pred);
        assert(entries.filter(pred) == if pred(last) {
            prefix.filter(pred).push(last)
        } else {
            prefix.filter(pred)
        });
        if pred(last) {
            assert(prefix.filter(pred).push(last).map_values(f) =~= prefix.filter(pred).map_values(f).push(last.path));
        }
        let kept = loose_paths(entries, root);
        let before = loose_paths(prefix, root);
        assert forall|j: int| 0 <= j < entries.len() && is_organizable(#[trigger] entries[j], root) implies kept.contains(
            entries[j].path,
        ) by {
            if j < prefix.len() {
                assert(entries[j] == prefix[j]);
                assert(before.contains(prefix[j].path));
                let k = choose|k: int| 0 <= k < before.len() && before[k] == prefix[j].path;
                if pred(last) {
                    assert(kept[k] == before[k]);
                } else {
                    assert(kept == before);
                }
            } else {
                assert(entries[j] == last);
                assert(kept[kept.len() - 1] == last.path);
            }
        }
    } else {
        assert(entries.filter(|e: EntryObservation| is_organizable(e, root)) =~= Seq::<EntryObservation>::empty());
    }
}

} // verus!
