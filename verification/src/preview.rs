//! What the organizer reports: the preview of a grouping, the summaries of
//! an organization run and of an undo, and the progress of a scan.
use vstd::prelude::*;

use crate::group::{
    group_view, group_views, lemma_total_stable_sorted, sorted_groups, CategoryGroup, GroupResult, Strategy, spec_strategy_name,
    total_grouped,
};
use crate::naming::{get_target_folder_name, spec_target_folder_name};
use crate::order::{seq_lt, stable_sorted};
use crate::organize::{OrganizeProgress, OrganizeResult, progress_event, spec_should_emit_progress};
use crate::path::{file_name, lemma_sorted_paths_len, sort_paths, sorted_paths, spec_file_name};
use crate::undo::UndoRestoreResult;

verus! {

/// At most this many file names of a category are shown in a preview.
pub const PREVIEW_SAMPLE_LIMIT: usize = 10;

/// One category of a preview.
pub struct PreviewCategory {
    pub category: String,
    pub folder_name: String,
    pub file_count: usize,
    pub sample_files: Vec<String>,
}

/// The preview of an organization: what would go where.
pub struct PreviewResult {
    pub directory: String,
    pub strategy: String,
    pub total_files: usize,
    pub category_count: usize,
    pub symlink_skip_count: usize,
    pub categories: Vec<PreviewCategory>,
}

/// The summary of an organization run (or of a preview-only run).
pub struct OrganizeSummary {
    pub organized_count: usize,
    pub category_count: usize,
    pub symlink_skip_count: usize,
    pub preview_only: bool,
    pub undo_file: Option<String>,
}

/// The summary of an undo.
pub struct UndoSummary {
    pub restored_count: usize,
    pub failed_count: usize,
    pub partial: bool,
}

/// The file names of the files that have one, in order.
pub open spec fn names_of(files: Seq<String>) -> Seq<Seq<char>>
    decreases files.len(),
{
    if files.len() == 0 {
        Seq::<Seq<char>>::empty()
    } else {
        let rest = names_of(files.drop_last());
        match spec_file_name(files.last()@) {
            Some(n) => rest.push(n),
            None => rest,
        }
    }
}

/// The sample of a category: the names of its first ten files.
pub open spec fn sample_names(files: Seq<String>) -> Seq<Seq<char>> {
    names_of(
        files.take(
            if files.len() < PREVIEW_SAMPLE_LIMIT {
                files.len() as int
            } else {
                PREVIEW_SAMPLE_LIMIT as int
            },
        ),
    )
}

pub open spec fn string_views(v: Seq<String>) -> Seq<Seq<char>> {
    v.map_values(|s: String| s@)
}

/// Whether `c` previews group `g` under `strategy`.
pub open spec fn previews_group(c: PreviewCategory, g: CategoryGroup, strategy: Strategy) -> bool {
    &&& c.category@ == g.category@
    &&& c.folder_name@ == spec_target_folder_name(g.category@, strategy)
    &&& c.file_count == g.files@.len()
    &&& string_views(c.sample_files@) == sample_names(g.files@)
}

fn sample_files_of(files: &Vec<String>) -> (r: Vec<String>)
    ensures
        string_views(r@) == sample_names(files@),
{
    let limit = if files.len() < PREVIEW_SAMPLE_LIMIT {
        files.len()
    } else {
        PREVIEW_SAMPLE_LIMIT
    };
    let mut names: Vec<String> = Vec::new();
    let mut i: usize = 0;
    while i < limit
        invariant
            limit <= files.len(),
            i <= limit,
            string_views(names@) == names_of(files@.take(i as int)),
        decreases limit - i,
    {
        let ghost before = names@;
        proof {
            assert(files@.take(i + 1).drop_last() =~= files@.take(i as int));
            assert(files@.take(i + 1).last() == files@[i as int]);
        }
        match file_name(files[i].as_str()) {
            Some(n) => {
                names.push(n);
                assert(string_views(names@) =~= string_views(before).push(names@.last()@));
            },
            None => {},
        }
        i += 1;
    }
    names
}

/// The preview of a grouping of `directory` under `strategy`: one entry per
/// category, in the grouping's (strictly ascending) category order, each
/// with its folder, its file count and the names of up to ten of its files.
pub fn preview_from_group_result(directory: &str, strategy: Strategy, result: &GroupResult) -> (r: PreviewResult)
    requires
        result.wf(),
    ensures
        r.directory@ == directory@,
        r.strategy@ == spec_strategy_name(strategy),
        r.total_files == total_grouped(result.grouped@),
        r.category_count == result.grouped@.len(),
        r.symlink_skip_count == result.symlink_skip_count,
        r.categories@.len() == result.grouped@.len(),
        forall|i: int|
            0 <= i < r.categories@.len() ==> previews_group(#[trigger] r.categories@[i], result.grouped@[i], strategy),
        forall|i: int, j: int|
            0 <= i < j < r.categories@.len() ==> seq_lt(
                #[trigger] r.categories@[i].category@,
                #[trigger] r.categories@[j].category@,
            ),
{
    let mut categories: Vec<PreviewCategory> = Vec::new();
    let mut i: usize = 0;
    while i < result.grouped.len()
        invariant
            i <= result.grouped.len(),
            categories@.len() == i,
            forall|k: int| 0 <= k < i ==> previews_group(#[trigger] categories@[k], result.grouped@[k], strategy),
        decreases result.grouped.len() - i,
    {
        let g = &result.grouped[i];
        let c = PreviewCategory {
            category: g.category.clone(),
            folder_name: get_target_folder_name(g.category.as_str(), strategy),
            file_count: g.files.len(),
            sample_files: sample_files_of(&g.files),
        };
        categories.push(c);
        i += 1;
    }
    proof {
        assert forall|i: int, j: int| 0 <= i < j < categories@.len() implies seq_lt(
            #[trigger] categories@[i].category@,
            #[trigger] categories@[j].category@,
        ) by {
            assert(previews_group(categories@[i], result.grouped@[i], strategy));
            assert(previews_group(categories@[j], result.grouped@[j], strategy));
        }
    }
    let total_files = result.total_files();
    PreviewResult {
        directory: String::from_str(directory),
        strategy: String::from_str(strategy.as_str()),
        total_files,
        category_count: categories.len(),
        symlink_skip_count: result.symlink_skip_count,
        categories,
    }
}

/// The summary of a preview-only run: every grouped file counts as
/// organized, and no undo log is written.
pub fn preview_summary(snapshot: &GroupResult) -> (r: OrganizeSummary)
    requires
        snapshot.wf(),
    ensures
        r.organized_count == total_grouped(snapshot.grouped@),
        r.category_count == snapshot.grouped@.len(),
        r.symlink_skip_count == snapshot.symlink_skip_count,
        r.preview_only,
        r.undo_file is None,
{
    OrganizeSummary {
        organized_count: snapshot.total_files(),
        category_count: snapshot.grouped.len(),
        symlink_skip_count: snapshot.symlink_skip_count,
        preview_only: true,
        undo_file: None,
    }
}

/// The summary of a run that moved files.
pub fn organize_summary(result: &OrganizeResult) -> (r: OrganizeSummary)
    ensures
        r.organized_count == result.organized_count,
        r.category_count == result.category_count,
        r.symlink_skip_count == result.symlink_skip_count,
        !r.preview_only,
        r.undo_file == result.undo_file,
{
    OrganizeSummary {
        organized_count: result.organized_count,
        category_count: result.category_count,
        symlink_skip_count: result.symlink_skip_count,
        preview_only: false,
        undo_file: match &result.undo_file {
            Some(p) => Some(p.clone()),
            None => None,
        },
    }
}

/// The summary of an undo.
pub fn undo_summary(result: &UndoRestoreResult) -> (r: UndoSummary)
    ensures
        r.restored_count == result.restored_count,
        r.failed_count == result.failed_count,
        r.partial == (result.failed_count > 0),
{
    UndoSummary { restored_count: result.restored_count, failed_count: result.failed_count, partial: result.partial() }
}

/// The order in which a grouping is walked: categories in ascending order,
/// and in each the files sorted.
pub open spec fn visits_of(groups: Seq<CategoryGroup>) -> Seq<(Seq<char>, String)>
    decreases groups.len(),
{
    if groups.len() == 0 {
        Seq::empty()
    } else {
        let g = groups.last();
        visits_of(groups.drop_last()) + sorted_paths(g.files@).map_values(|f: String| (g.category@, f))
    }
}

/// A walk visits every grouped file once.
pub proof fn lemma_visits_len(groups: Seq<CategoryGroup>)
    ensures
        visits_of(groups).len() == total_grouped(groups),
    decreases groups.len(),
{
    if groups.len() > 0 {
        lemma_visits_len(groups.drop_last());
        lemma_sorted_paths_len(groups.last().files@);
    }
}

pub open spec fn visit_views(visits: Seq<(String, String)>) -> Seq<(Seq<char>, String)> {
    visits.map_values(|v: (String, String)| (v.0@, v.1))
}

/// Groups that hold the same are walked alike.
pub proof fn lemma_views_visits(a: Seq<CategoryGroup>, b: Seq<CategoryGroup>)
    requires
        group_views(a) == group_views(b),
    ensures
        visits_of(a) == visits_of(b),
    decreases a.len(),
{
    assert(a.len() == group_views(a).len() && b.len() == group_views(b).len());
    if a.len() > 0 {
        assert(group_views(a.drop_last()) =~= group_views(a).drop_last());
        assert(group_views(b.drop_last()) =~= group_views(b).drop_last());
        assert(group_view(a.last()) == group_views(a)[a.len() - 1]);
        assert(group_view(b.last()) == group_views(b)[b.len() - 1]);
        lemma_views_visits(a.drop_last(), b.drop_last());
    }
}

/// Every (category, file) of a grouping, in walking order: categories
/// sorted, and in each the files sorted.
pub fn walk_grouped_files(groups: &Vec<CategoryGroup>) -> (r: Vec<(String, String)>)
    ensures
        visit_views(r@) == visits_of(stable_sorted(groups@)),
{
    let sorted = sorted_groups(groups);
    let r = walk_sorted_groups(&sorted);
    proof {
        lemma_views_visits(sorted@, stable_sorted(groups@));
    }
    r
}

fn walk_sorted_groups(groups: &Vec<CategoryGroup>) -> (r: Vec<(String, String)>)
    ensures
        visit_views(r@) == visits_of(groups@),
{
    let mut visits: Vec<(String, String)> = Vec::new();
    let mut i: usize = 0;
    while i < groups.len()
        invariant
            i <= groups.len(),
            visit_views(visits@) == visits_of(groups@.take(i as int)),
        decreases groups.len() - i,
    {
        let g = &groups[i];
        let mut files: Vec<String> = Vec::new();
        let mut k: usize = 0;
        while k < g.files.len()
            invariant
                k <= g.files.len(),
                files@ == g.files@.take(k as int),
            decreases g.files.len() - k,
        {
            files.push(g.files[k].clone());
            assert(g.files@.take(k + 1) =~= g.files@.take(k as int).push(g.files@[k as int]));
            k += 1;
        }
        assert(g.files@.take(g.files@.len() as int) =~= g.files@);
        let sorted = sort_paths(files);
        let ghost start = visit_views(visits@);
        let mut m: usize = 0;
        while m < sorted.len()
            invariant
                m <= sorted.len(),
                visit_views(visits@) == start + sorted@.take(m as int).map_values(|f: String| (g.category@, f)),
            decreases sorted.len() - m,
        {
            let ghost before = visits@;
            visits.push((g.category.clone(), sorted[m].clone()));
            proof {
                assert(visit_views(visits@) =~= visit_views(before).push((g.category@, sorted@[m as int])));
                assert(sorted@.take(m + 1).map_values(|f: String| (g.category@, f)) =~= sorted@.take(
                    m as int,
                ).map_values(|f: String| (g.category@, f)).push((g.category@, sorted@[m as int])));
            }
            m += 1;
        }
        proof {
            assert(sorted@.take(sorted@.len() as int) =~= sorted@);
            assert(groups@.take(i + 1).drop_last() =~= groups@.take(i as int));
            assert(groups@.take(i + 1).last() == groups@[i as int]);
        }
        i += 1;
    }
    assert(groups@.take(groups@.len() as int) =~= groups@);
    visits
}

/// The progress reports of a scan that walks `visits`: after the k-th
/// visit (counting from 1), one is due when `spec_should_emit_progress`
/// says so, naming the category and the file.
pub open spec fn scan_events(visits: Seq<(Seq<char>, String)>, total: usize, interval: usize) -> Seq<(Seq<char>, Seq<char>, int)>
    decreases visits.len(),
{
    if visits.len() == 0 {
        Seq::empty()
    } else {
        let rest = scan_events(visits.drop_last(), total, interval);
        let k = visits.len();
        if spec_should_emit_progress(k as usize, total, interval) {
            rest.push(
                (
                    visits.last().0,
                    match spec_file_name(visits.last().1@) {
                        Some(n) => n,
                        None => Seq::<char>::empty(),
                    },
                    k as int,
                ),
            )
        } else {
            rest
        }
    }
}

pub open spec fn event_views(events: Seq<OrganizeProgress>) -> Seq<(Seq<char>, Seq<char>, int)> {
    events.map_values(|e: OrganizeProgress| (e.category@, e.file_name@, e.processed_files as int))
}

/// The progress reports of a scan over `groups` that found `total_files`
/// files.
pub fn scan_progress_events(groups: &Vec<CategoryGroup>, total_files: usize, progress_interval: usize) -> (r: Vec<OrganizeProgress>)
    requires
        progress_interval > 0,
        total_grouped(groups@) <= usize::MAX,
    ensures
        event_views(r@) == scan_events(visits_of(stable_sorted(groups@)), total_files, progress_interval),
        forall|i: int| 0 <= i < r@.len() ==> (#[trigger] r@[i]).total_files == total_files,
{
    let visits = walk_grouped_files(groups);
    let ghost vv = visit_views(visits@);
    proof {
        lemma_visits_len(stable_sorted(groups@));
        lemma_total_stable_sorted(groups@);
    }
    let mut events: Vec<OrganizeProgress> = Vec::new();
    let mut k: usize = 0;
    while k < visits.len()
        invariant
            k <= visits.len(),
            progress_interval > 0,
            vv == visit_views(visits@),
            vv == visits_of(stable_sorted(groups@)),
            event_views(events@) == scan_events(vv.take(k as int), total_files, progress_interval),
            forall|i: int| 0 <= i < events@.len() ==> (#[trigger] events@[i]).total_files == total_files,
        decreases visits.len() - k,
    {
        let ghost before = events@;
        proof {
            assert(vv.take(k + 1).drop_last() =~= vv.take(k as int));
            assert(vv.take(k + 1).last() == vv[k as int]);
            assert(vv.take(k + 1).len() == k + 1);
        }
        match progress_event(visits[k].0.as_str(), visits[k].1.as_str(), k + 1, total_files, progress_interval) {
            Some(e) => {
                events.push(e);
                assert(event_views(events@) =~= event_views(before).push(
                    (events@.last().category@, events@.last().file_name@, events@.last().processed_files as int),
                ));
            },
            None => {},
        }
        k += 1;
    }
    assert(vv.take(vv.len() as int) =~= vv);
    events
}

} // verus!
