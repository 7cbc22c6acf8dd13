//! Planning an organization run: the move plan per category, the unique
//! names that moved files get, and the progress reports of a run.
use vstd::prelude::*;

use crate::group::{CategoryGroup, GroupResult, Strategy, total_grouped};
use crate::naming::{get_target_folder_name, spec_target_folder_name};
use crate::path::{sort_paths, sorted_paths, extension, file_name, file_stem, join, spec_extension, spec_file_name, spec_file_stem, spec_join, spec_stem_of_name, lemma_file_name_nonempty, lemma_last_index_of, last_index_of};
use crate::runtime::{RuntimeProfile, spec_progress_interval_for_total};
use crate::text::push_char;

verus! {

/// Whether a progress report is due after `processed_files` of
/// `total_files` files: every `progress_interval` files, and at the end.
pub open spec fn spec_should_emit_progress(processed_files: usize, total_files: usize, progress_interval: usize) -> bool {
    processed_files % progress_interval == 0 || processed_files == total_files
}

pub fn should_emit_progress(processed_files: usize, total_files: usize, progress_interval: usize) -> (r: bool)
    requires
        progress_interval > 0,
    ensures
        r == spec_should_emit_progress(processed_files, total_files, progress_interval),
{
    processed_files % progress_interval == 0 || processed_files == total_files
}

/// The character of a decimal digit.
pub open spec fn digit_char(d: nat) -> char {
    seq!['0', '1', '2', '3', '4', '5', '6', '7', '8', '9'][d as int]
}

/// The decimal numeral of `n`, without leading zeros.
pub open spec fn decimal(n: nat) -> Seq<char>
    decreases n,
{
    if n < 10 {
        seq![digit_char(n)]
    } else {
        decimal(n / 10).push(digit_char(n % 10))
    }
}

/// Appends the decimal numeral of `n`.
pub fn push_decimal(s: &mut String, n: u32)
    ensures
        final(s)@ == old(s)@ + decimal(n as nat),
    decreases n,
{
    if n >= 10 {
        push_decimal(s, n / 10);
    }
    let d = n % 10;
    let c = if d == 0 {
        '0'
    } else if d == 1 {
        '1'
    } else if d == 2 {
        '2'
    } else if d == 3 {
        '3'
    } else if d == 4 {
        '4'
    } else if d == 5 {
        '5'
    } else if d == 6 {
        '6'
    } else if d == 7 {
        '7'
    } else if d == 8 {
        '8'
    } else {
        '9'
    };
    assert(c == digit_char(d as nat));
    push_char(s, c);
    proof {
        if n >= 10 {
            assert(final(s)@ =~= old(s)@ + decimal(n as nat));
        } else {
            assert(final(s)@ =~= old(s)@ + decimal(n as nat));
        }
    }
}

/// What is inserted between stem and extension for the `counter`-th try:
/// nothing for the first, "_" and the counter after that.
pub open spec fn counter_infix(counter: nat) -> Seq<char> {
    if counter == 0 {
        Seq::<char>::empty()
    } else {
        seq!['_'] + decimal(counter)
    }
}

/// The stem that a moved file keeps: its own, or "file" where it has none.
pub open spec fn stem_or_default(source: Seq<char>) -> Seq<char> {
    stem_part(spec_file_stem(source))
}

/// The extension a moved file keeps, with its dot; empty where it has none.
pub open spec fn dotted_extension(source: Seq<char>) -> Seq<char> {
    extension_part(spec_extension(source))
}

/// A stem, or "file" where there is none (or it is not valid text).
pub open spec fn stem_part(stem: Option<Seq<char>>) -> Seq<char> {
    match stem {
        Some(s) => s,
        None => "file"@,
    }
}

/// An extension with its dot, or nothing where there is none (or it is not
/// valid text).
pub open spec fn extension_part(extension: Option<Seq<char>>) -> Seq<char> {
    match extension {
        Some(e) => seq!['.'] + e,
        None => Seq::<char>::empty(),
    }
}

/// The file name tried at the `counter`-th attempt for a file with the
/// given stem and extension.
pub open spec fn spec_candidate_name_from_parts(stem: Option<Seq<char>>, extension: Option<Seq<char>>, counter: nat) -> Seq<char> {
    stem_part(stem) + counter_infix(counter) + extension_part(extension)
}

/// The file name tried for `source` at the `counter`-th attempt.
pub open spec fn spec_candidate_name(source: Seq<char>, counter: nat) -> Seq<char> {
    spec_candidate_name_from_parts(spec_file_stem(source), spec_extension(source), counter)
}

/// The name tried at the `counter`-th try for a file with the given stem
/// and extension (each `None` where the file has none or it is not valid
/// text): the stem or "file", then "_" and the counter unless it is 0, then
/// the extension with its dot.
pub fn candidate_name_from_parts(stem: Option<&str>, extension: Option<&str>, counter: u32) -> (r: String)
    ensures
        r@ == spec_candidate_name_from_parts(
            match stem {
                Some(s) => Some(s@),
                None => None,
            },
            match extension {
                Some(e) => Some(e@),
                None => None,
            },
            counter as nat,
        ),
{
    let mut name = match stem {
        Some(s) => String::from_str(s),
        None => String::from_str("file"),
    };
    if counter != 0 {
        push_char(&mut name, '_');
        push_decimal(&mut name, counter);
    }
    match extension {
        Some(e) => {
            push_char(&mut name, '.');
            name.append(e);
        },
        None => {},
    }
    proof {
        let sv = match stem {
            Some(s) => Some(s@),
            None => None,
        };
        let ev = match extension {
            Some(e) => Some(e@),
            None => None,
        };
        assert(name@ =~= spec_candidate_name_from_parts(sv, ev, counter as nat));
    }
    name
}

/// The name tried for a file moved from `source`, at the `counter`-th try:
/// its stem, then "_" and the counter unless it is 0, then its extension.
pub fn candidate_name(source: &str, counter: u32) -> (r: String)
    ensures
        r@ == spec_candidate_name(source@, counter as nat),
{
    let stem = file_stem(source);
    let ext = extension(source);
    let s = match &stem {
        Some(x) => Some(x.as_str()),
        None => None,
    };
    let e = match &ext {
        Some(x) => Some(x.as_str()),
        None => None,
    };
    candidate_name_from_parts(s, e, counter)
}

/// The path tried in `target_dir` at the `counter`-th try for a file with the
/// given stem and extension (each `None` where the file has none or it is
/// not valid text).
pub fn candidate_path_from_parts(target_dir: &str, stem: Option<&str>, extension: Option<&str>, counter: u32) -> (r: String)
    ensures
        r@ == spec_join(
            target_dir@,
            spec_candidate_name_from_parts(
                match stem {
                    Some(s) => Some(s@),
                    None => None,
                },
                match extension {
                    Some(e) => Some(e@),
                    None => None,
                },
                counter as nat,
            ),
        ),
{
    let name = candidate_name_from_parts(stem, extension, counter);
    join(target_dir, name.as_str())
}

/// The path tried in `target_dir` for a file moved from `source`, at the
/// `counter`-th try.
pub fn candidate_path(target_dir: &str, source: &str, counter: u32) -> (r: String)
    ensures
        r@ == spec_join(target_dir@, spec_candidate_name(source@, counter as nat)),
{
    let name = candidate_name(source, counter);
    join(target_dir, name.as_str())
}

proof fn lemma_digit_char_injective(a: nat, b: nat)
    requires
        a < 10,
        b < 10,
        digit_char(a) == digit_char(b),
    ensures
        a == b,
{
    let digits = seq!['0', '1', '2', '3', '4', '5', '6', '7', '8', '9'];
    assert(digits[0] == '0' && digits[1] == '1' && digits[2] == '2' && digits[3] == '3' && digits[4] == '4');
    assert(digits[5] == '5' && digits[6] == '6' && digits[7] == '7' && digits[8] == '8' && digits[9] == '9');
}

proof fn lemma_decimal_len(n: nat)
    ensures
        decimal(n).len() >= 1,
        n >= 10 ==> decimal(n).len() >= 2,
    decreases n,
{
    if n >= 10 {
        lemma_decimal_len(n / 10);
    }
}

/// Different numbers have different numerals.
pub proof fn lemma_decimal_injective(a: nat, b: nat)
    requires
        decimal(a) == decimal(b),
    ensures
        a == b,
    decreases a,
{
    lemma_decimal_len(a);
    lemma_decimal_len(b);
    if a < 10 && b < 10 {
        assert(decimal(a)[0] == digit_char(a));
        assert(decimal(b)[0] == digit_char(b));
        lemma_digit_char_injective(a, b);
    } else if a >= 10 && b >= 10 {
        assert(decimal(a).last() == digit_char(a % 10));
        assert(decimal(b).last() == digit_char(b % 10));
        lemma_digit_char_injective(a % 10, b % 10);
        assert(decimal(a).drop_last() =~= decimal(a / 10));
        assert(decimal(b).drop_last() =~= decimal(b / 10));
        lemma_decimal_injective(a / 10, b / 10);
    }
}

proof fn lemma_stem_nonempty(source: Seq<char>)
    ensures
        stem_or_default(source).len() > 0,
{
    lemma_file_name_nonempty(source);
    match spec_file_name(source) {
        Some(name) => {
            lemma_last_index_of(name, '.');
            let d = last_index_of(name, '.');
            if !(name == seq!['.', '.'] || d <= 0) {
                assert(spec_stem_of_name(name) =~= name.subrange(0, d));
            }
        },
        None => {
            reveal_strlit("file");
        },
    }
}

/// The names tried at different counters differ, so no two tries for one
/// file aim at the same path.
pub proof fn lemma_candidates_distinct(target_dir: Seq<char>, source: Seq<char>, c1: nat, c2: nat)
    requires
        c1 != c2,
    ensures
        spec_join(target_dir, spec_candidate_name(source, c1)) != spec_join(
            target_dir,
            spec_candidate_name(source, c2),
        ),
{
    let stem = stem_or_default(source);
    let suffix = dotted_extension(source);
    let e1 = counter_infix(c1);
    let e2 = counter_infix(c2);
    let n1 = spec_candidate_name(source, c1);
    let n2 = spec_candidate_name(source, c2);
    lemma_stem_nonempty(source);
    lemma_decimal_len(c1);
    lemma_decimal_len(c2);
    if spec_join(target_dir, n1) == spec_join(target_dir, n2) {
        assert(n1[0] == stem[0] && n2[0] == stem[0]);
        assert(n1 == n2) by {
            if !(n1[0] == '/') {
                let j1 = spec_join(target_dir, n1);
                let base_len = if target_dir.len() == 0 || target_dir.last() == '/' {
                    target_dir.len()
                } else {
                    target_dir.len() + 1
                };
                assert(j1.subrange(base_len as int, j1.len() as int) =~= n1);
                assert(spec_join(target_dir, n2).subrange(base_len as int, j1.len() as int) =~= n2);
            }
        }
        assert(e1.len() == e2.len());
        assert(n1.subrange(stem.len() as int, (stem.len() + e1.len()) as int) =~= e1);
        assert(n2.subrange(stem.len() as int, (stem.len() + e2.len()) as int) =~= e2);
        assert(e1 == e2);
        if c1 != 0 && c2 != 0 {
            assert(e1.drop_first() =~= decimal(c1));
            assert(e2.drop_first() =~= decimal(c2));
            lemma_decimal_injective(c1, c2);
        }
    }
}

/// The files of one category and the folder they move to.
pub struct CategoryMovePlan {
    pub category: String,
    pub target_dir: String,
    pub files: Vec<String>,
}

/// Whether `plans` moves the groups into their category folders in
/// `directory`: one plan per group, in order, each with its files sorted.
pub open spec fn plans_for(
    plans: Seq<CategoryMovePlan>,
    groups: Seq<CategoryGroup>,
    directory: Seq<char>,
    strategy: Strategy,
) -> bool {
    &&& plans.len() == groups.len()
    &&& forall|i: int|
        0 <= i < plans.len() ==> {
            &&& (#[trigger] plans[i]).category@ == groups[i].category@
            &&& plans[i].target_dir@ == spec_join(
                directory,
                spec_target_folder_name(groups[i].category@, strategy),
            )
            &&& plans[i].files@ == sorted_paths(groups[i].files@)
        }
}

/// The move plan of each group, in group order.
pub fn build_move_plans(directory: &str, strategy: Strategy, groups: &Vec<CategoryGroup>) -> (r: Vec<CategoryMovePlan>)
    ensures
        plans_for(r@, groups@, directory@, strategy),
{
    let mut plans: Vec<CategoryMovePlan> = Vec::new();
    let mut i: usize = 0;
    while i < groups.len()
        invariant
            i <= groups.len(),
            plans_for(plans@, groups@.take(i as int), directory@, strategy),
        decreases groups.len() - i,
    {
        let g = &groups[i];
        let folder = get_target_folder_name(g.category.as_str(), strategy);
        let target_dir = join(directory, folder.as_str());
        let mut files: Vec<String> = Vec::new();
        let mut k: usize = 0;
        while k < g.files.len()
            invariant
                k <= g.files.len(),
                files@ == g.files@.take(k as int),
            decreases g.files.len() - k,
        {
            files.push(g.files[k].clone());
            assert(g.files@.take(k + 1) =~= g.files@.take(k as int).push(g.files@[k as int]));
            k += 1;
        }
        assert(g.files@.take(g.files@.len() as int) =~= g.files@);
        let sorted = sort_paths(files);
        let ghost before = plans@;
        plans.push(CategoryMovePlan { category: g.category.clone(), target_dir, files: sorted });
        proof {
            assert forall|j: int| 0 <= j < plans@.len() implies {
                &&& (#[trigger] plans@[j]).category@ == groups@.take(i + 1)[j].category@
                &&& plans@[j].target_dir@ == spec_join(
                    directory@,
                    spec_target_folder_name(groups@.take(i + 1)[j].category@, strategy),
                )
                &&& plans@[j].files@ == sorted_paths(groups@.take(i + 1)[j].files@)
            } by {
                if j < i {
                    assert(plans@[j] == before[j]);
                    assert(groups@.take(i + 1)[j] == groups@.take(i as int)[j]);
                }
            }
        }
        i += 1;
    }
    assert(groups@.take(groups@.len() as int) =~= groups@);
    plans
}

/// One file to move, for runs that move files in parallel.
pub struct MoveTask {
    pub category: String,
    pub file_path: String,
    pub target_dir: String,
}

/// The tasks of the plans, plan by plan, file by file.
pub open spec fn tasks_of(plans: Seq<CategoryMovePlan>) -> Seq<(Seq<char>, String, Seq<char>)>
    decreases plans.len(),
{
    if plans.len() == 0 {
        Seq::empty()
    } else {
        let p = plans.last();
        tasks_of(plans.drop_last()) + p.files@.map_values(
            |f: String| (p.category@, f, p.target_dir@),
        )
    }
}

pub open spec fn task_views(tasks: Seq<MoveTask>) -> Seq<(Seq<char>, String, Seq<char>)> {
    tasks.map_values(|t: MoveTask| (t.category@, t.file_path, t.target_dir@))
}

/// The plans as a flat list of single moves, in plan order.
pub fn move_tasks(plans: &Vec<CategoryMovePlan>) -> (r: Vec<MoveTask>)
    ensures
        task_views(r@) == tasks_of(plans@),
{
    let mut tasks: Vec<MoveTask> = Vec::new();
    let mut i: usize = 0;
    while i < plans.len()
        invariant
            i <= plans.len(),
            task_views(tasks@) == tasks_of(plans@.take(i as int)),
        decreases plans.len() - i,
    {
        let p = &plans[i];
        let ghost start = task_views(tasks@);
        let mut k: usize = 0;
        while k < p.files.len()
            invariant
                k <= p.files.len(),
                task_views(tasks@) == start + p.files@.take(k as int).map_values(
                    |f: String| (p.category@, f, p.target_dir@),
                ),
            decreases p.files.len() - k,
        {
            let ghost before = tasks@;
            tasks.push(MoveTask { category: p.category.clone(), file_path: p.files[k].clone(), target_dir: p.target_dir.clone() });
            proof {
                assert(task_views(tasks@) =~= task_views(before).push((p.category@, p.files@[k as int], p.target_dir@)));
                assert(p.files@.take(k + 1).map_values(|f: String| (p.category@, f, p.target_dir@))
                    =~= p.files@.take(k as int).map_values(|f: String| (p.category@, f, p.target_dir@)).push(
                    (p.category@, p.files@[k as int], p.target_dir@),
                ));
            }
            k += 1;
        }
        proof {
            assert(p.files@.take(p.files@.len() as int) =~= p.files@);
            assert(plans@.take(i + 1).drop_last() =~= plans@.take(i as int));
            assert(plans@.take(i + 1).last() == plans@[i as int]);
        }
        i += 1;
    }
    assert(plans@.take(plans@.len() as int) =~= plans@);
    tasks
}

/// One progress report of a run.
pub struct OrganizeProgress {
    pub category: String,
    pub file_name: String,
    pub processed_files: usize,
    pub total_files: usize,
}

/// The report due after moving `file_path`, the `processed_files`-th file of
/// the run, where one is due.
pub fn progress_event(
    category: &str,
    file_path: &str,
    processed_files: usize,
    total_files: usize,
    progress_interval: usize,
) -> (r: Option<OrganizeProgress>)
    requires
        progress_interval > 0,
    ensures
        match r {
            Some(p) => {
                &&& spec_should_emit_progress(processed_files, total_files, progress_interval)
                &&& p.category@ == category@
                &&& p.file_name@ == match spec_file_name(file_path@) {
                    Some(n) => n,
                    None => Seq::<char>::empty(),
                }
                &&& p.processed_files == processed_files
                &&& p.total_files == total_files
            },
            None => !spec_should_emit_progress(processed_files, total_files, progress_interval),
        },
{
    if !should_emit_progress(processed_files, total_files, progress_interval) {
        return None;
    }
    let name = match file_name(file_path) {
        Some(n) => n,
        None => String::new(),
    };
    Some(OrganizeProgress {
        category: String::from_str(category),
        file_name: name,
        processed_files,
        total_files,
    })
}

/// What an organization run does: the plans, how often it reports progress,
/// and whether it moves one file at a time.
pub struct OrganizePlan {
    pub total_files: usize,
    pub category_count: usize,
    pub progress_interval: usize,
    /// Move one file at a time (the profile allows no concurrency).
    pub sequential: bool,
    pub plans: Vec<CategoryMovePlan>,
}

/// The plan for organizing the grouped files of `directory`.  With no file
/// to move there is nothing to plan.
pub fn plan_organization(
    directory: &str,
    strategy: Strategy,
    groups: &GroupResult,
    profile: &RuntimeProfile,
) -> (r: Option<OrganizePlan>)
    requires
        groups.wf(),
    ensures
        match r {
            None => total_grouped(groups.grouped@) == 0,
            Some(plan) => {
                &&& total_grouped(groups.grouped@) > 0
                &&& plan.total_files == total_grouped(groups.grouped@)
                &&& plan.category_count == groups.grouped@.len()
                &&& plan.progress_interval == spec_progress_interval_for_total(
                    profile.progress_interval,
                    plan.total_files,
                )
                &&& plan.progress_interval > 0
                &&& plan.sequential == (profile.move_concurrency <= 1)
                &&& plans_for(plan.plans@, groups.grouped@, directory@, strategy)
            },
        },
{
    let total_files = groups.total_files();
    if total_files == 0 {
        return None;
    }
    let progress_interval = profile.progress_interval_for_total(total_files);
    let plans = build_move_plans(directory, strategy, &groups.grouped);
    Some(OrganizePlan {
        total_files,
        category_count: groups.grouped.len(),
        progress_interval,
        sequential: profile.move_concurrency <= 1,
        plans,
    })
}

/// The count of a run that moves files one after another.
pub struct MoveTally {
    pub processed_files: usize,
    pub organized_count: usize,
    pub total_files: usize,
    pub progress_interval: usize,
}

impl MoveTally {
    pub fn new(total_files: usize, progress_interval: usize) -> (r: Self)
        ensures
            r.processed_files == 0,
            r.organized_count == 0,
            r.total_files == total_files,
            r.progress_interval == progress_interval,
    {
        MoveTally { processed_files: 0, organized_count: 0, total_files, progress_interval }
    }

    /// Counts one moved file and gives the progress report due for it.
    pub fn record_move(&mut self, category: &str, file_path: &str) -> (r: Option<OrganizeProgress>)
        requires
            old(self).processed_files < old(self).total_files,
            old(self).organized_count <= old(self).processed_files,
            old(self).progress_interval > 0,
        ensures
            final(self).processed_files == old(self).processed_files + 1,
            final(self).organized_count == old(self).organized_count + 1,
            final(self).total_files == old(self).total_files,
            final(self).progress_interval == old(self).progress_interval,
            match r {
                Some(p) => {
                    &&& spec_should_emit_progress(
                        final(self).processed_files,
                        final(self).total_files,
                        final(self).progress_interval,
                    )
                    &&& p.category@ == category@
                    &&& p.file_name@ == match spec_file_name(file_path@) {
                        Some(n) => n,
                        None => Seq::<char>::empty(),
                    }
                    &&& p.processed_files == final(self).processed_files
                    &&& p.total_files == final(self).total_files
                },
                None => !spec_should_emit_progress(
                    final(self).processed_files,
                    final(self).total_files,
                    final(self).progress_interval,
                ),
            },
    {
        self.processed_files = self.processed_files + 1;
        self.organized_count = self.organized_count + 1;
        progress_event(category, file_path, self.processed_files, self.total_files, self.progress_interval)
    }
}

/// The outcome of an organization run.
pub struct OrganizeResult {
    pub organized_count: usize,
    pub category_count: usize,
    pub symlink_skip_count: usize,
    pub undo_file: Option<String>,
    pub group_snapshot: GroupResult,
}

impl OrganizeResult {
    /// The result of a run that found nothing to move.
    pub fn nothing_to_organize(group_snapshot: GroupResult) -> (r: Self)
        ensures
            r.organized_count == 0,
            r.category_count == 0,
            r.symlink_skip_count == group_snapshot.symlink_skip_count,
            r.undo_file is None,
            r.group_snapshot == group_snapshot,
    {
        let symlink_skip_count = group_snapshot.symlink_skip_count;
        OrganizeResult { organized_count: 0, category_count: 0, symlink_skip_count, undo_file: None, group_snapshot }
    }

    /// The result of a run that went through its plan.
    pub fn completed(
        plan: &OrganizePlan,
        organized_count: usize,
        undo_file: Option<String>,
        group_snapshot: GroupResult,
    ) -> (r: Self)
        ensures
            r.organized_count == organized_count,
            r.category_count == plan.category_count,
            r.symlink_skip_count == group_snapshot.symlink_skip_count,
            r.undo_file == undo_file,
            r.group_snapshot == group_snapshot,
    {
        let symlink_skip_count = group_snapshot.symlink_skip_count;
        OrganizeResult {
            organized_count,
            category_count: plan.category_count,
            symlink_skip_count,
            undo_file,
            group_snapshot,
        }
    }
}

} // verus!
