//! Grouping strategies and the grouping of scanned files into categories.
use vstd::prelude::*;

use crate::order::{
    chars_lt, insert_stable, lemma_le_transitive, lemma_lt_irreflexive, lemma_lt_total, lemma_lt_transitive, seq_lt,
    sort_stable, stable_sorted, str_lt, SortKey,
};
use crate::file_type::{categorize_path, spec_categorize_extension, spec_trimmed_extension};
use crate::text::{chars_of, concat_str, str_eq};
use crate::walk::WalkResult;

verus! {

#[derive(Debug, Clone, Copy, PartialEq, Eq, Structural)]
pub enum Strategy {
    Type,
    Size,
    Date,
}

/// The strategy that a name selects; "extension" is an older name of the
/// type strategy.
pub open spec fn spec_strategy_from_name(raw: Seq<char>) -> Option<Strategy> {
    if raw == "type"@ || raw == "extension"@ {
        Some(Strategy::Type)
    } else if raw == "size"@ {
        Some(Strategy::Size)
    } else if raw == "date"@ {
        Some(Strategy::Date)
    } else {
        None
    }
}

pub open spec fn spec_strategy_name(strategy: Strategy) -> Seq<char> {
    match strategy {
        Strategy::Type => "type"@,
        Strategy::Size => "size"@,
        Strategy::Date => "date"@,
    }
}

impl Strategy {
    pub fn try_from_str(raw: &str) -> (r: Result<Self, String>)
        ensures
            match r {
                Ok(s) => spec_strategy_from_name(raw@) == Some(s),
                Err(message) => spec_strategy_from_name(raw@) is None && message@
                    == "Unknown strategy: "@ + raw@,
            },
    {
        if str_eq(raw, "type") || str_eq(raw, "extension") {
            Ok(Strategy::Type)
        } else if str_eq(raw, "size") {
            Ok(Strategy::Size)
        } else if str_eq(raw, "date") {
            Ok(Strategy::Date)
        } else {
            Err(concat_str("Unknown strategy: ", raw))
        }
    }

    pub fn as_str(self) -> (r: &'static str)
        ensures
            r@ == spec_strategy_name(self),
    {
        match self {
            Strategy::Type => "type",
            Strategy::Size => "size",
            Strategy::Date => "date",
        }
    }
}

/// A strategy's name selects the strategy again.
pub proof fn lemma_strategy_name_round_trip(strategy: Strategy)
    ensures
        spec_strategy_from_name(spec_strategy_name(strategy)) == Some(strategy),
{
    reveal_strlit("type");
    reveal_strlit("size");
    reveal_strlit("date");
    reveal_strlit("extension");
    assert("size"@[0] != "type"@[0]);
    assert("size"@.len() != "extension"@.len());
    assert("date"@[0] != "type"@[0]);
    assert("date"@.len() != "extension"@.len());
    assert("date"@[0] != "size"@[0]);
}

/// The files of one category.
pub struct CategoryGroup {
    pub category: String,
    pub files: Vec<String>,
}

/// A copy of the strings, in order.
pub fn copy_strings(v: &Vec<String>) -> (r: Vec<String>)
    ensures
        r@ == v@,
{
    let mut r: Vec<String> = Vec::new();
    let mut k: usize = 0;
    while k < v.len()
        invariant
            k <= v.len(),
            r@ == v@.take(k as int),
        decreases v.len() - k,
    {
        r.push(v[k].clone());
        assert(v@.take(k + 1) =~= v@.take(k as int).push(v@[k as int]));
        k += 1;
    }
    assert(v@.take(v@.len() as int) =~= v@);
    r
}

impl Clone for CategoryGroup {
    fn clone(&self) -> (r: Self)
        ensures
            group_view(r) == group_view(*self),
    {
        let files = copy_strings(&self.files);
        CategoryGroup { category: self.category.clone(), files }
    }
}

/// What a group holds: its category's characters and its files.
pub open spec fn group_view(g: CategoryGroup) -> (Seq<char>, Seq<String>) {
    (g.category@, g.files@)
}

pub open spec fn group_views(gs: Seq<CategoryGroup>) -> Seq<(Seq<char>, Seq<String>)> {
    gs.map_values(|g: CategoryGroup| group_view(g))
}

/// Groups are ordered by their category.
impl SortKey for CategoryGroup {
    open spec fn key_lt(a: Self, b: Self) -> bool {
        seq_lt(a.category@, b.category@)
    }

    proof fn lemma_key_lt_irreflexive(a: Self) {
        lemma_lt_irreflexive(a.category@);
    }

    proof fn lemma_key_lt_transitive(a: Self, b: Self, c: Self) {
        lemma_lt_transitive(a.category@, b.category@, c.category@);
    }

    proof fn lemma_key_le_transitive(a: Self, b: Self, c: Self) {
        lemma_le_transitive(a.category@, b.category@, c.category@);
    }

    fn sorts_before(&self, other: &Self) -> (r: bool) {
        str_lt(self.category.as_str(), other.category.as_str())
    }
}

/// The groups sorted (stably) by category, as the keys of a map of groups
/// are sorted before the grouping is walked.
pub fn sorted_groups(groups: &Vec<CategoryGroup>) -> (r: Vec<CategoryGroup>)
    ensures
        group_views(r@) == group_views(stable_sorted(groups@)),
        total_grouped(r@) == total_grouped(groups@),
{
    let mut copies: Vec<CategoryGroup> = Vec::new();
    let mut k: usize = 0;
    while k < groups.len()
        invariant
            k <= groups.len(),
            group_views(copies@) == group_views(groups@.take(k as int)),
        decreases groups.len() - k,
    {
        let ghost before = copies@;
        copies.push(groups[k].clone());
        assert(group_views(copies@) =~= group_views(before).push(group_view(groups@[k as int])));
        assert(groups@.take(k + 1) =~= groups@.take(k as int).push(groups@[k as int]));
        assert(group_views(groups@.take(k + 1)) =~= group_views(groups@.take(k as int)).push(
            group_view(groups@[k as int]),
        ));
        k += 1;
    }
    assert(groups@.take(groups@.len() as int) =~= groups@);
    let ghost c = copies@;
    let r = sort_stable(copies);
    proof {
        lemma_views_sorted(c, groups@);
        lemma_total_stable_sorted(groups@);
        lemma_views_total(r@, stable_sorted(groups@));
    }
    r
}

/// Groups that hold the same have the same file count.
pub proof fn lemma_views_total(a: Seq<CategoryGroup>, b: Seq<CategoryGroup>)
    requires
        group_views(a) == group_views(b),
    ensures
        total_grouped(a) == total_grouped(b),
    decreases a.len(),
{
    assert(a.len() == group_views(a).len());
    if a.len() > 0 {
        assert(group_views(a.drop_last()) =~= group_views(a).drop_last());
        assert(group_views(b.drop_last()) =~= group_views(b).drop_last());
        assert(group_view(a.last()) == group_views(a)[a.len() - 1]);
        assert(group_view(b.last()) == group_views(b)[b.len() - 1]);
        lemma_views_total(a.drop_last(), b.drop_last());
    }
}

proof fn lemma_views_insert(a: Seq<CategoryGroup>, b: Seq<CategoryGroup>, x: CategoryGroup, y: CategoryGroup)
    requires
        group_views(a) == group_views(b),
        group_view(x) == group_view(y),
    ensures
        group_views(insert_stable(a, x)) == group_views(insert_stable(b, y)),
    decreases a.len(),
{
    assert(a.len() == group_views(a).len() && b.len() == group_views(b).len());
    if a.len() == 0 {
        assert(group_views(seq![x]) =~= group_views(seq![y]));
    } else {
        assert(group_view(a.last()) == group_views(a)[a.len() - 1]);
        assert(group_view(b.last()) == group_views(b)[b.len() - 1]);
        if seq_lt(x.category@, a.last().category@) {
            assert(group_views(a.drop_last()) =~= group_views(a).drop_last());
            assert(group_views(b.drop_last()) =~= group_views(b).drop_last());
            lemma_views_insert(a.drop_last(), b.drop_last(), x, y);
            let ia = insert_stable(a.drop_last(), x);
            let ib = insert_stable(b.drop_last(), y);
            assert(group_views(ia.push(a.last())) =~= group_views(ia).push(group_view(a.last())));
            assert(group_views(ib.push(b.last())) =~= group_views(ib).push(group_view(b.last())));
        } else {
            assert(group_views(a.push(x)) =~= group_views(a).push(group_view(x)));
            assert(group_views(b.push(y)) =~= group_views(b).push(group_view(y)));
        }
    }
}

/// Groups that hold the same sort to groups that hold the same.
pub proof fn lemma_views_sorted(a: Seq<CategoryGroup>, b: Seq<CategoryGroup>)
    requires
        group_views(a) == group_views(b),
    ensures
        group_views(stable_sorted(a)) == group_views(stable_sorted(b)),
    decreases a.len(),
{
    assert(a.len() == group_views(a).len() && b.len() == group_views(b).len());
    if a.len() > 0 {
        assert(group_views(a.drop_last()) =~= group_views(a).drop_last());
        assert(group_views(b.drop_last()) =~= group_views(b).drop_last());
        assert(group_view(a.last()) == group_views(a)[a.len() - 1]);
        assert(group_view(b.last()) == group_views(b)[b.len() - 1]);
        lemma_views_sorted(a.drop_last(), b.drop_last());
        lemma_views_insert(stable_sorted(a.drop_last()), stable_sorted(b.drop_last()), a.last(), b.last());
    }
}

proof fn lemma_total_insert_stable(s: Seq<CategoryGroup>, x: CategoryGroup)
    ensures
        total_grouped(insert_stable(s, x)) == total_grouped(s) + x.files@.len(),
    decreases s.len(),
{
    if s.len() == 0 {
        assert(insert_stable(s, x) == seq![x]);
        assert(seq![x].drop_last() =~= Seq::<CategoryGroup>::empty());
        assert(seq![x].last() == x);
        assert(total_grouped(seq![x]) == total_grouped(Seq::<CategoryGroup>::empty()) + x.files@.len());
    } else if seq_lt(x.category@, s.last().category@) {
        lemma_total_insert_stable(s.drop_last(), x);
        let i = insert_stable(s.drop_last(), x);
        assert(insert_stable(s, x) == i.push(s.last()));
        assert(i.push(s.last()).drop_last() =~= i);
        assert(i.push(s.last()).last() == s.last());
        assert(total_grouped(s) == total_grouped(s.drop_last()) + s.last().files@.len());
    } else {
        assert(insert_stable(s, x) == s.push(x));
        assert(s.push(x).drop_last() =~= s);
        assert(s.push(x).last() == x);
    }
}

/// Sorting groups keeps their file count.
pub proof fn lemma_total_stable_sorted(s: Seq<CategoryGroup>)
    ensures
        total_grouped(stable_sorted(s)) == total_grouped(s),
    decreases s.len(),
{
    if s.len() > 0 {
        lemma_total_stable_sorted(s.drop_last());
        lemma_total_insert_stable(stable_sorted(s.drop_last()), s.last());
    }
}

/// The files, in order, that the pairs put in category `c`.
pub open spec fn files_in_category(pairs: Seq<(Seq<char>, String)>, c: Seq<char>) -> Seq<String>
    decreases pairs.len(),
{
    if pairs.len() == 0 {
        Seq::<String>::empty()
    } else {
        let rest = files_in_category(pairs.drop_last(), c);
        if pairs.last().0 == c {
            rest.push(pairs.last().1)
        } else {
            rest
        }
    }
}

/// Whether some pair has category `c`.
pub open spec fn has_category(pairs: Seq<(Seq<char>, String)>, c: Seq<char>) -> bool {
    exists|k: int| 0 <= k < pairs.len() && #[trigger] pairs[k].0 == c
}

/// Whether the categories of the groups strictly ascend.
pub open spec fn categories_ascending(groups: Seq<CategoryGroup>) -> bool {
    forall|i: int, j: int|
        0 <= i < j < groups.len() ==> seq_lt(#[trigger] groups[i].category@, #[trigger] groups[j].category@)
}

/// Whether `groups` is the grouping of the (category, file) pairs: one group
/// per category that occurs, in ascending category order, each holding the
/// files of its category in the order of the pairs.
pub open spec fn groups_of(groups: Seq<CategoryGroup>, pairs: Seq<(Seq<char>, String)>) -> bool {
    &&& categories_ascending(groups)
    &&& forall|i: int|
        0 <= i < groups.len() ==> (#[trigger] groups[i]).files@ == files_in_category(
            pairs,
            groups[i].category@,
        ) && has_category(pairs, groups[i].category@)
    &&& forall|k: int|
        0 <= k < pairs.len() ==> exists|i: int|
            0 <= i < groups.len() && (#[trigger] groups[i]).category@ == #[trigger] pairs[k].0
}

/// Number of files over all groups.
pub open spec fn total_grouped(groups: Seq<CategoryGroup>) -> nat
    decreases groups.len(),
{
    if groups.len() == 0 {
        0
    } else {
        total_grouped(groups.drop_last()) + groups.last().files@.len()
    }
}

/// The (category, file) pairs for the files whose key is present.
pub open spec fn present_pairs(files: Seq<String>, keys: Seq<Option<Seq<char>>>) -> Seq<(Seq<char>, String)>
    decreases files.len(),
{
    if files.len() == 0 || keys.len() == 0 {
        Seq::<(Seq<char>, String)>::empty()
    } else {
        let rest = present_pairs(files.drop_last(), keys.drop_last());
        match keys.last() {
            Some(k) => rest.push((k, files.last())),
            None => rest,
        }
    }
}

/// The character sequences of optional keys.
pub open spec fn key_views(keys: Seq<Option<String>>) -> Seq<Option<Seq<char>>> {
    keys.map_values(|k: Option<String>| match k {
        Some(s) => Some(s@),
        None => None,
    })
}

proof fn lemma_files_in_step(pairs: Seq<(Seq<char>, String)>, i: int, c: Seq<char>)
    requires
        0 <= i < pairs.len(),
    ensures
        files_in_category(pairs.take(i + 1), c) == if pairs[i].0 == c {
            files_in_category(pairs.take(i), c).push(pairs[i].1)
        } else {
            files_in_category(pairs.take(i), c)
        },
{
    assert(pairs.take(i + 1).drop_last() =~= pairs.take(i));
    assert(pairs.take(i + 1).last() == pairs[i]);
}

proof fn lemma_files_in_absent(pairs: Seq<(Seq<char>, String)>, c: Seq<char>)
    requires
        !has_category(pairs, c),
    ensures
        files_in_category(pairs, c) == Seq::<String>::empty(),
    decreases pairs.len(),
{
    if pairs.len() > 0 {
        let prefix = pairs.drop_last();
        assert(!has_category(prefix, c)) by {
            if has_category(prefix, c) {
                let k = choose|k: int| 0 <= k < prefix.len() && #[trigger] prefix[k].0 == c;
                assert(pairs[k] == prefix[k]);
            }
        }
        lemma_files_in_absent(prefix, c);
        assert(pairs[pairs.len() - 1].0 != c);
    }
}

proof fn lemma_total_update(groups: Seq<CategoryGroup>, j: int, g: CategoryGroup)
    requires
        0 <= j < groups.len(),
    ensures
        total_grouped(groups.update(j, g)) == total_grouped(groups) - groups[j].files@.len()
            + g.files@.len(),
    decreases groups.len(),
{
    if j == groups.len() - 1 {
        assert(groups.update(j, g).drop_last() =~= groups.drop_last());
    } else {
        lemma_total_update(groups.drop_last(), j, g);
        assert(groups.update(j, g).drop_last() =~= groups.drop_last().update(j, g));
    }
}

proof fn lemma_total_insert(groups: Seq<CategoryGroup>, j: int, g: CategoryGroup)
    requires
        0 <= j <= groups.len(),
    ensures
        total_grouped(groups.insert(j, g)) == total_grouped(groups) + g.files@.len(),
    decreases groups.len(),
{
    if j == groups.len() {
        assert(groups.insert(j, g).drop_last() =~= groups);
    } else {
        lemma_total_insert(groups.drop_last(), j, g);
        assert(groups.insert(j, g).drop_last() =~= groups.drop_last().insert(j, g));
    }
}

/// Groups the (category, file) pairs by category.
#[verifier::rlimit(40)]
pub fn group_pairs(pairs: &Vec<(String, String)>) -> (r: Vec<CategoryGroup>)
    ensures
        groups_of(r@, pairs@.map_values(|p: (String, String)| (p.0@, p.1))),
        total_grouped(r@) == pairs@.len(),
{
    let ghost all = pairs@.map_values(|p: (String, String)| (p.0@, p.1));
    let mut groups: Vec<CategoryGroup> = Vec::new();
    let mut i: usize = 0;
    while i < pairs.len()
        invariant
            i <= pairs.len(),
            all == pairs@.map_values(|p: (String, String)| (p.0@, p.1)),
            groups_of(groups@, all.take(i as int)),
            total_grouped(groups@) == i,
        decreases pairs.len() - i,
    {
        let ghost before = groups@;
        let ghost prefix = all.take(i as int);
        let ghost next = all.take(i + 1);
        let category = &pairs[i].0;
        let file = pairs[i].1.clone();
        let ghost c = category@;
        assert(all[i as int] == (c, file));
        let key = chars_of(category.as_str());
        let mut j: usize = 0;
        let mut scanning = true;
        while scanning && j < groups.len()
            invariant
                groups@ == before,
                key@ == c,
                j <= groups.len(),
                forall|k: int| 0 <= k < j ==> seq_lt(#[trigger] groups@[k].category@, c),
                !scanning ==> j < groups.len() && !seq_lt(groups@[j as int].category@, c),
            decreases groups.len() - j + if scanning { 1int } else { 0int },
        {
            let other = chars_of(groups[j].category.as_str());
            if chars_lt(&other, &key) {
                j += 1;
            } else {
                scanning = false;
            }
        }
        assert forall|cat: Seq<char>| #![trigger files_in_category(next, cat)]
            files_in_category(next, cat) == if cat == c {
                files_in_category(prefix, cat).push(file)
            } else {
                files_in_category(prefix, cat)
            } by {
            lemma_files_in_step(all, i as int, cat);
        }
        let found = j < groups.len() && str_eq(groups[j].category.as_str(), category.as_str());
        if found {
            let mut g = groups.remove(j);
            g.files.push(file);
            groups.insert(j, g);
            proof {
                assert(groups@ =~= before.update(j as int, g));
                lemma_total_update(before, j as int, g);
                assert forall|x: int| 0 <= x < groups@.len() implies (#[trigger] groups@[x]).files@
                    == files_in_category(next, groups@[x].category@) && has_category(
                    next,
                    groups@[x].category@,
                ) by {
                    assert(files_in_category(next, groups@[x].category@) == if groups@[x].category@ == c {
                        files_in_category(prefix, groups@[x].category@).push(file)
                    } else {
                        files_in_category(prefix, groups@[x].category@)
                    });
                    if x != j {
                        assert(groups@[x] == before[x]);
                        if before[x].category@ == c {
                            if x < j {
                                lemma_lt_irreflexive(c);
                            } else {
                                assert(seq_lt(before[j as int].category@, before[x].category@));
                                lemma_lt_irreflexive(c);
                            }
                        }
                    }
                    let k = choose|k: int| 0 <= k < prefix.len() && #[trigger] prefix[k].0
                        == before[x].category@;
                    assert(next[k] == prefix[k]);
                }
                assert forall|k: int| 0 <= k < next.len() implies exists|y: int|
                    0 <= y < groups@.len() && (#[trigger] groups@[y]).category@ == #[trigger] next[k].0 by {
                    if k < i {
                        assert(next[k] == prefix[k]);
                        let y = choose|y: int|
                            0 <= y < before.len() && (#[trigger] before[y]).category@ == #[trigger] prefix[k].0;
                        assert(groups@[y].category@ == before[y].category@);
                    } else {
                        assert(groups@[j as int].category@ == c);
                    }
                }
            }
        } else {
            let mut files: Vec<String> = Vec::new();
            files.push(file);
            let g = CategoryGroup { category: category.clone(), files };
            proof {
                if j < before.len() {
                    lemma_lt_total(before[j as int].category@, c);
                }
                assert(!has_category(prefix, c)) by {
                    if has_category(prefix, c) {
                        let k = choose|k: int| 0 <= k < prefix.len() && #[trigger] prefix[k].0 == c;
                        let y = choose|y: int|
                            0 <= y < before.len() && (#[trigger] before[y]).category@ == #[trigger] prefix[k].0;
                        if y < j {
                            lemma_lt_irreflexive(c);
                        } else if y == j {
                        } else {
                            assert(seq_lt(before[j as int].category@, before[y].category@));
                            lemma_lt_transitive(c, before[j as int].category@, before[y].category@);
                            lemma_lt_irreflexive(c);
                        }
                    }
                }
                lemma_files_in_absent(prefix, c);
            }
            groups.insert(j, g);
            proof {
                assert(groups@ =~= before.insert(j as int, g));
                lemma_total_insert(before, j as int, g);
                assert(g.files@ =~= files_in_category(prefix, c).push(file));
                assert forall|x: int, y: int| 0 <= x < y < groups@.len() implies seq_lt(
                    #[trigger] groups@[x].category@,
                    #[trigger] groups@[y].category@,
                ) by {
                    if y < j {
                        assert(groups@[x] == before[x] && groups@[y] == before[y]);
                    } else if y == j {
                        assert(groups@[x] == before[x]);
                    } else if x == j {
                        assert(groups@[y] == before[y - 1]);
                        if y - 1 > j {
                            assert(seq_lt(before[j as int].category@, before[y - 1].category@));
                            lemma_lt_transitive(c, before[j as int].category@, before[y - 1].category@);
                        }
                    } else if x < j {
                        assert(groups@[x] == before[x] && groups@[y] == before[y - 1]);
                        if y - 1 >= j {
                            if y - 1 > j {
                                assert(seq_lt(before[j as int].category@, before[y - 1].category@));
                                lemma_lt_transitive(c, before[j as int].category@, before[y - 1].category@);
                            }
                            lemma_lt_transitive(before[x].category@, c, before[y - 1].category@);
                        }
                    } else {
                        assert(groups@[x] == before[x - 1] && groups@[y] == before[y - 1]);
                    }
                }
                assert forall|x: int| 0 <= x < groups@.len() implies (#[trigger] groups@[x]).files@
                    == files_in_category(next, groups@[x].category@) && has_category(
                    next,
                    groups@[x].category@,
                ) by {
                    assert(files_in_category(next, groups@[x].category@) == if groups@[x].category@ == c {
                        files_in_category(prefix, groups@[x].category@).push(file)
                    } else {
                        files_in_category(prefix, groups@[x].category@)
                    });
                    if x == j {
                        assert(next[i as int].0 == c);
                    } else {
                        let bx = if x < j { x } else { x - 1 };
                        assert(groups@[x] == before[bx]);
                        let k = choose|k: int| 0 <= k < prefix.len() && #[trigger] prefix[k].0
                            == before[bx].category@;
                        assert(next[k] == prefix[k]);
                        if before[bx].category@ == c {
                            assert(has_category(prefix, c));
                        }
                    }
                }
                assert forall|k: int| 0 <= k < next.len() implies exists|y: int|
                    0 <= y < groups@.len() && (#[trigger] groups@[y]).category@ == #[trigger] next[k].0 by {
                    if k < i {
                        assert(next[k] == prefix[k]);
                        let y = choose|y: int|
                            0 <= y < before.len() && (#[trigger] before[y]).category@ == #[trigger] prefix[k].0;
                        let gy = if y < j { y } else { y + 1 };
                        assert(groups@[gy] == before[y]);
                    } else {
                        assert(groups@[j as int].category@ == c);
                    }
                }
            }
        }
        i += 1;
    }
    assert(all.take(pairs@.len() as int) =~= all);
    groups
}

pub proof fn lemma_present_pairs_len(files: Seq<String>, keys: Seq<Option<Seq<char>>>)
    ensures
        present_pairs(files, keys).len() <= files.len(),
    decreases files.len(),
{
    if files.len() > 0 && keys.len() > 0 {
        lemma_present_pairs_len(files.drop_last(), keys.drop_last());
    }
}

/// Groups the files that have a key by that key; a file whose key is
/// missing (its metadata could not be read) is left out.
pub fn group_by_keys(files: &Vec<String>, keys: &Vec<Option<String>>) -> (r: Vec<CategoryGroup>)
    requires
        files.len() == keys.len(),
    ensures
        groups_of(r@, present_pairs(files@, key_views(keys@))),
        total_grouped(r@) == present_pairs(files@, key_views(keys@)).len(),
        total_grouped(r@) <= files.len(),
{
    let ghost kv = key_views(keys@);
    let mut pairs: Vec<(String, String)> = Vec::new();
    let mut i: usize = 0;
    while i < files.len()
        invariant
            files.len() == keys.len(),
            i <= files.len(),
            kv == key_views(keys@),
            pairs@.map_values(|p: (String, String)| (p.0@, p.1)) == present_pairs(
                files@.take(i as int),
                kv.take(i as int),
            ),
        decreases files.len() - i,
    {
        let ghost before = pairs@;
        proof {
            assert(files@.take(i + 1).drop_last() =~= files@.take(i as int));
            assert(kv.take(i + 1).drop_last() =~= kv.take(i as int));
            assert(files@.take(i + 1).last() == files@[i as int]);
            assert(kv.take(i + 1).last() == kv[i as int]);
        }
        match &keys[i] {
            Some(k) => {
                pairs.push((k.clone(), files[i].clone()));
                assert(pairs@.map_values(|p: (String, String)| (p.0@, p.1)) =~= before.map_values(
                    |p: (String, String)| (p.0@, p.1),
                ).push((k@, files@[i as int])));
            },
            None => {},
        }
        i += 1;
    }
    proof {
        assert(files@.take(files@.len() as int) =~= files@);
        assert(kv.take(kv.len() as int) =~= kv);
        lemma_present_pairs_len(files@, kv);
    }
    group_pairs(&pairs)
}

/// A modification time as a Unix timestamp: whole seconds since
/// 1970-01-01 00:00:00 UTC (negative before it) and the nanoseconds past
/// that second.
#[derive(Debug, Clone, Copy, PartialEq, Eq, Structural)]
pub struct UnixTime {
    pub seconds: i64,
    pub nanos: u32,
}

/// First second (0001-01-02 00:00:00 UTC) of the span whose local dates,
/// under any offset of less than a day, fall in the years 1 to 9999.
pub const FOUR_DIGIT_YEARS_FIRST_SECOND: i64 = -62135510400;
/// Last second (9999-12-30 23:59:59 UTC) of that span.
pub const FOUR_DIGIT_YEARS_LAST_SECOND: i64 = 253402214399;

/// Whether a time lies where its local year, under any time-zone offset of
/// less than a day, is written with four digits, and its nanoseconds are
/// those of one second.
pub open spec fn in_four_digit_years(t: UnixTime) -> bool {
    &&& FOUR_DIGIT_YEARS_FIRST_SECOND <= t.seconds <= FOUR_DIGIT_YEARS_LAST_SECOND
    &&& t.nanos < 1000000000
}

pub open spec fn is_digit(c: char) -> bool {
    '0' <= c && c <= '9'
}

/// The proleptic Gregorian (year, month) of day `z`, counted in days from
/// 1970-01-01 (negative before it).
pub open spec fn civil_year_month(z: int) -> (int, int) {
    let shifted = z + 719468;
    let era = shifted / 146097;
    let doe = shifted - era * 146097;
    let yoe = (doe - doe / 1460 + doe / 36524 - doe / 146096) / 365;
    let doy = doe - (365 * yoe + yoe / 4 - yoe / 100);
    let mp = (5 * doy + 2) / 153;
    let month = if mp < 10 {
        mp + 3
    } else {
        mp - 9
    };
    let year = yoe + era * 400 + if month <= 2 {
        1int
    } else {
        0int
    };
    (year, month)
}

/// The decimal digit `d % 10`.
pub open spec fn digit_of(d: int) -> char {
    seq!['0', '1', '2', '3', '4', '5', '6', '7', '8', '9'][d % 10]
}

/// "%Y-%m" of the calendar date, in UTC, of the Unix second `s`, for a year
/// written with four digits.
pub open spec fn utc_month_key(s: int) -> Seq<char> {
    let (year, month) = civil_year_month(s / 86400);
    seq![
        digit_of(year / 1000),
        digit_of(year / 100),
        digit_of(year / 10),
        digit_of(year),
        '-',
        digit_of(month / 10),
        digit_of(month),
    ]
}

/// Whether `k` is "%Y-%m" of the local date of `time` under some offset from
/// UTC of less than a day.
pub open spec fn is_local_month_key_of(k: Seq<char>, time: UnixTime) -> bool {
    exists|offset: int| is_zone_offset(offset) && k == #[trigger] month_key_at(time.seconds as int, offset)
}

/// An offset from UTC that chrono accepts: less than a day either way.
pub open spec fn is_zone_offset(offset: int) -> bool {
    -86400 < offset < 86400
}

/// "%Y-%m" of the local date of the Unix second `s` in a time zone that is
/// `offset` seconds ahead of UTC.
pub open spec fn month_key_at(s: int, offset: int) -> Seq<char> {
    utc_month_key(s + offset)
}

/// Whether `k` reads as a year and month, "YYYY-MM", with a month from 01
/// to 12.
pub open spec fn is_month_key(k: Seq<char>) -> bool {
    &&& k.len() == 7
    &&& is_digit(k[0]) && is_digit(k[1]) && is_digit(k[2]) && is_digit(k[3])
    &&& k[4] == '-'
    &&& ((k[5] == '0' && '1' <= k[6] && k[6] <= '9') || (k[5] == '1' && '0' <= k[6] && k[6] <= '2'))
}

pub const ONE_MB: u64 = 1048576;

/// The size bucket of a file of `len` bytes.  The buckets are half-open
/// ranges of whole mebibytes: below 1, below 10, below 100, and the rest.
/// (Dividing the length by 2^20 as a 64-bit float and comparing with 1.0,
/// 10.0 and 100.0 gives the same buckets: below 2^53 the conversion and the
/// division are exact, and above it the quotient is far beyond 100.)
pub open spec fn spec_size_bucket(len: u64) -> Seq<char> {
    if len < ONE_MB {
        "Small (< 1MB)"@
    } else if len < 10 * ONE_MB {
        "Medium (1MB - 10MB)"@
    } else if len < 100 * ONE_MB {
        "Large (10MB - 100MB)"@
    } else {
        "Very Large (> 100MB)"@
    }
}

/// Each size bucket holds exactly the lengths its label names, counted in
/// mebibytes (2^20 bytes): under 1, from 1 to under 10, from 10 to under
/// 100, and 100 or more.
pub proof fn lemma_size_buckets_match_labels(len: u64)
    ensures
        spec_size_bucket(len) == "Small (< 1MB)"@ <==> len < 1048576,
        spec_size_bucket(len) == "Medium (1MB - 10MB)"@ <==> 1048576 <= len < 10485760,
        spec_size_bucket(len) == "Large (10MB - 100MB)"@ <==> 10485760 <= len < 104857600,
        spec_size_bucket(len) == "Very Large (> 100MB)"@ <==> 104857600 <= len,
{
    reveal_strlit("Small (< 1MB)");
    reveal_strlit("Medium (1MB - 10MB)");
    reveal_strlit("Large (10MB - 100MB)");
    reveal_strlit("Very Large (> 100MB)");
    let small = "Small (< 1MB)"@;
    let medium = "Medium (1MB - 10MB)"@;
    let large = "Large (10MB - 100MB)"@;
    let very = "Very Large (> 100MB)"@;
    assert(small[0] != medium[0] && small[0] != large[0] && small[0] != very[0]);
    assert(medium[0] != large[0] && medium[0] != very[0] && large[0] != very[0]);
}

/// The category of a file under the type strategy.
pub open spec fn spec_category_of_path(p: Seq<char>) -> Seq<char> {
    spec_categorize_extension(spec_trimmed_extension(p))
}

/// Keys of the type strategy: every file has one.
pub open spec fn type_keys(files: Seq<String>) -> Seq<Option<Seq<char>>> {
    files.map_values(|f: String| Some(spec_category_of_path(f@)))
}

/// Keys of the size strategy: the size bucket, where the size was read.
pub open spec fn size_keys(sizes: Seq<Option<u64>>) -> Seq<Option<Seq<char>>> {
    sizes.map_values(|s: Option<u64>| match s {
        Some(n) => Some(spec_size_bucket(n)),
        None => None,
    })
}

/// Calls chrono: `DateTime::from_timestamp` (which answers `None` for a
/// timestamp outside chrono's range or for invalid nanoseconds), then
/// `with_timezone(&Local)` and `format("%Y-%m")`.  The local date is the UTC
/// date of the time shifted by the machine's offset from UTC, which chrono
/// only accepts strictly between -86400 and 86400 seconds
/// (`FixedOffset::east_opt`); which offset applies is the machine's, so no
/// clause says which.  chrono formats a year from 0 to 9999 with four digits
/// and a month with two, so within `in_four_digit_years` the key is
/// "YYYY-MM".  Where the time-zone data cannot be read chrono uses UTC; it
/// panics only where its zone yields no local time type for the moment
/// (`expect` in its Unix time-zone lookup), which depends on the machine's
/// zone data, not on the arguments.
#[verifier::external_body]
fn local_month_key(time: UnixTime) -> (r: Option<String>)
    ensures
        in_four_digit_years(time) ==> r is Some && is_month_key(r.unwrap()@) && is_local_month_key_of(
            r.unwrap()@,
            time,
        ),
{
    match chrono::DateTime::from_timestamp(time.seconds, time.nanos) {
        Some(utc) => Some(utc.with_timezone(&chrono::Local).format("%Y-%m").to_string()),
        None => None,
    }
}

/// The size bucket of a file of `len` bytes.
pub fn size_bucket(len: u64) -> (r: String)
    ensures
        r@ == spec_size_bucket(len),
{
    if len < ONE_MB {
        String::from_str("Small (< 1MB)")
    } else if len < 10 * ONE_MB {
        String::from_str("Medium (1MB - 10MB)")
    } else if len < 100 * ONE_MB {
        String::from_str("Large (10MB - 100MB)")
    } else {
        String::from_str("Very Large (> 100MB)")
    }
}

/// Groups files by their file type.
pub fn group_by_file_type(files: &Vec<String>) -> (r: Vec<CategoryGroup>)
    ensures
        groups_of(r@, present_pairs(files@, type_keys(files@))),
        total_grouped(r@) == present_pairs(files@, type_keys(files@)).len(),
        total_grouped(r@) <= files.len(),
{
    let mut keys: Vec<Option<String>> = Vec::new();
    let mut i: usize = 0;
    while i < files.len()
        invariant
            i <= files.len(),
            keys.len() == i,
            key_views(keys@) =~= type_keys(files@).take(i as int),
        decreases files.len() - i,
    {
        keys.push(Some(categorize_path(files[i].as_str())));
        i += 1;
    }
    assert(type_keys(files@).take(files@.len() as int) =~= type_keys(files@));
    group_by_keys(files, &keys)
}

/// Groups files by size bucket; `sizes[i]` is the length of `files[i]`, or
/// none where its metadata could not be read, and such a file is left out.
pub fn group_by_size(files: &Vec<String>, sizes: &Vec<Option<u64>>) -> (r: Vec<CategoryGroup>)
    requires
        files.len() == sizes.len(),
    ensures
        groups_of(r@, present_pairs(files@, size_keys(sizes@))),
        total_grouped(r@) == present_pairs(files@, size_keys(sizes@)).len(),
        total_grouped(r@) <= files.len(),
{
    let mut keys: Vec<Option<String>> = Vec::new();
    let mut i: usize = 0;
    while i < sizes.len()
        invariant
            i <= sizes.len(),
            keys.len() == i,
            key_views(keys@) =~= size_keys(sizes@).take(i as int),
        decreases sizes.len() - i,
    {
        match sizes[i] {
            Some(n) => keys.push(Some(size_bucket(n))),
            None => keys.push(None),
        }
        i += 1;
    }
    assert(size_keys(sizes@).take(sizes@.len() as int) =~= size_keys(sizes@));
    group_by_keys(files, &keys)
}

/// Groups files by the local year and month ("%Y-%m") of their modification
/// time; `modified[i]` is that time for `files[i]`, or none where it could
/// not be read, and such a file is left out, as is a file whose time chrono
/// cannot represent.  Each file's key is the month of its own time, in UTC
/// shifted by the machine's offset from UTC (less than a day); which offset
/// applies is the machine's setting, so the contract does not fix it.
pub fn group_by_date(files: &Vec<String>, modified: &Vec<Option<UnixTime>>) -> (r: Vec<CategoryGroup>)
    requires
        files.len() == modified.len(),
    ensures
        exists|keys: Seq<Option<Seq<char>>>|
            #![trigger present_pairs(files@, keys)]
            keys.len() == files.len() && date_keys_fit(keys, modified@) && groups_of(r@, present_pairs(files@, keys))
                && total_grouped(r@) == present_pairs(files@, keys).len(),
        total_grouped(r@) <= files.len(),
{
    let mut keys: Vec<Option<String>> = Vec::new();
    let mut i: usize = 0;
    while i < modified.len()
        invariant
            i <= modified.len(),
            keys.len() == i,
            date_keys_fit(key_views(keys@), modified@.take(i as int)),
        decreases modified.len() - i,
    {
        let ghost before = keys@;
        let key = match modified[i] {
            Some(t) => local_month_key(t),
            None => None,
        };
        keys.push(key);
        proof {
            assert(key_views(keys@) =~= key_views(before).push(key_views(keys@)[i as int]));
            assert(modified@.take(i + 1)[i as int] == modified@[i as int]);
            assert forall|k: int| 0 <= k < i implies modified@.take(i + 1)[k] == modified@.take(i as int)[k] by {}
        }
        i += 1;
    }
    assert(modified@.take(modified@.len() as int) =~= modified@);
    group_by_keys(files, &keys)
}

/// Whether the date keys fit the modification times: a file whose time is
/// unknown has no key, and a file whose time lies within the four-digit
/// years has a key "YYYY-MM" that is the month of its own time under some
/// offset from UTC of less than a day.
pub open spec fn date_keys_fit(keys: Seq<Option<Seq<char>>>, modified: Seq<Option<UnixTime>>) -> bool {
    &&& keys.len() == modified.len()
    &&& forall|i: int| 0 <= i < keys.len() ==> #[trigger] date_key_fits(keys[i], modified[i])
}

/// Whether one date key fits its modification time.
pub open spec fn date_key_fits(key: Option<Seq<char>>, modified: Option<UnixTime>) -> bool {
    match modified {
        None => key is None,
        Some(t) => in_four_digit_years(t) ==> (key matches Some(k) && is_month_key(k) && is_local_month_key_of(k, t)),
    }
}

/// Files grouped into categories, with the counts that the scan skipped.
#[derive(Clone)]
pub struct GroupResult {
    pub grouped: Vec<CategoryGroup>,
    pub symlink_skip_count: usize,
    pub organized_folder_skip_count: usize,
    pub hidden_skip_count: usize,
    /// Every file the scan found, grouped or not.
    pub files: Vec<String>,
}

proof fn lemma_total_prefix(groups: Seq<CategoryGroup>, i: int)
    requires
        0 <= i <= groups.len(),
    ensures
        total_grouped(groups.take(i)) <= total_grouped(groups),
    decreases groups.len() - i,
{
    if i < groups.len() {
        lemma_total_prefix(groups, i + 1);
        assert(groups.take(i + 1).drop_last() =~= groups.take(i));
    } else {
        assert(groups.take(i) =~= groups);
    }
}

impl GroupResult {
    /// Each category occurs once and the categories ascend, as the keys of a
    /// map do once sorted, and the number of grouped files fits in a `usize`.
    pub open spec fn wf(&self) -> bool {
        categories_ascending(self.grouped@) && total_grouped(self.grouped@) <= usize::MAX
    }

    /// Number of files over all groups.
    pub fn total_files(&self) -> (r: usize)
        requires
            self.wf(),
        ensures
            r == total_grouped(self.grouped@),
    {
        let mut sum: usize = 0;
        let mut i: usize = 0;
        while i < self.grouped.len()
            invariant
                self.wf(),
                i <= self.grouped.len(),
                sum == total_grouped(self.grouped@.take(i as int)),
            decreases self.grouped.len() - i,
        {
            proof {
                assert(self.grouped@.take(i + 1).drop_last() =~= self.grouped@.take(i as int));
                assert(self.grouped@.take(i + 1).last() == self.grouped@[i as int]);
                lemma_total_prefix(self.grouped@, i + 1);
            }
            sum = sum + self.grouped[i].files.len();
            i += 1;
        }
        assert(self.grouped@.take(self.grouped@.len() as int) =~= self.grouped@);
        sum
    }

    /// Whether the grouping is well formed (`wf`), for callers that built it
    /// themselves.
    pub fn is_well_formed(&self) -> (r: bool)
        ensures
            r == self.wf(),
    {
        let n = self.grouped.len();
        let mut sum: usize = 0;
        let mut i: usize = 0;
        while i < n
            invariant
                n == self.grouped@.len(),
                i <= n,
                sum == total_grouped(self.grouped@.take(i as int)),
                forall|a: int, b: int|
                    0 <= a < b < i ==> seq_lt(
                        #[trigger] self.grouped@[a].category@,
                        #[trigger] self.grouped@[b].category@,
                    ),
            decreases n - i,
        {
            proof {
                assert(self.grouped@.take(i + 1).drop_last() =~= self.grouped@.take(i as int));
                assert(self.grouped@.take(i + 1).last() == self.grouped@[i as int]);
            }
            if i > 0 {
                if !str_lt(self.grouped[i - 1].category.as_str(), self.grouped[i].category.as_str()) {
                    assert(!categories_ascending(self.grouped@));
                    return false;
                }
                proof {
                    assert forall|a: int| 0 <= a < i implies seq_lt(
                        #[trigger] self.grouped@[a].category@,
                        self.grouped@[i as int].category@,
                    ) by {
                        if a < i - 1 {
                            lemma_lt_transitive(
                                self.grouped@[a].category@,
                                self.grouped@[i - 1].category@,
                                self.grouped@[i as int].category@,
                            );
                        }
                    }
                }
            }
            let count = self.grouped[i].files.len();
            if count > usize::MAX - sum {
                proof {
                    lemma_total_prefix(self.grouped@, i + 1);
                }
                return false;
            }
            sum = sum + count;
            i += 1;
        }
        assert(self.grouped@.take(n as int) =~= self.grouped@);
        true
    }

    /// The files of a category, where it has a group.
    pub fn get(&self, category: &str) -> (r: Option<&Vec<String>>)
        ensures
            match r {
                Some(files) => exists|i: int|
                    0 <= i < self.grouped@.len() && (#[trigger] self.grouped@[i]).category@ == category@
                        && self.grouped@[i].files == *files,
                None => forall|i: int|
                    0 <= i < self.grouped@.len() ==> (#[trigger] self.grouped@[i]).category@ != category@,
            },
    {
        let mut i: usize = 0;
        while i < self.grouped.len()
            invariant
                i <= self.grouped.len(),
                forall|k: int| 0 <= k < i ==> (#[trigger] self.grouped@[k]).category@ != category@,
            decreases self.grouped.len() - i,
        {
            if str_eq(self.grouped[i].category.as_str(), category) {
                return Some(&self.grouped[i].files);
            }
            i += 1;
        }
        None
    }
}

/// The grouping of a scan's files under a strategy.  `sizes` (for the size
/// strategy) and `modified` (for the date strategy) hold what the caller read
/// of each file's metadata, in the order of the scanned files.
pub fn group_walk_result(
    walk: WalkResult,
    strategy: Strategy,
    sizes: &Vec<Option<u64>>,
    modified: &Vec<Option<UnixTime>>,
) -> (r: GroupResult)
    requires
        strategy == Strategy::Size ==> sizes.len() == walk.files.len(),
        strategy == Strategy::Date ==> modified.len() == walk.files.len(),
    ensures
        r.wf(),
        categories_ascending(r.grouped@),
        total_grouped(r.grouped@) <= r.files@.len(),
        strategy == Strategy::Type ==> total_grouped(r.grouped@) == walk.files@.len(),
        r.files == walk.files,
        r.symlink_skip_count == walk.symlink_skip_count,
        r.organized_folder_skip_count == walk.organized_folder_skip_count,
        r.hidden_skip_count == walk.hidden_skip_count,
        strategy == Strategy::Type ==> groups_of(r.grouped@, present_pairs(walk.files@, type_keys(walk.files@))),
        strategy == Strategy::Size ==> groups_of(r.grouped@, present_pairs(walk.files@, size_keys(sizes@))),
        strategy == Strategy::Date ==> exists|keys: Seq<Option<Seq<char>>>|
            #![trigger present_pairs(walk.files@, keys)]
            keys.len() == walk.files.len() && date_keys_fit(keys, modified@) && groups_of(
                r.grouped@,
                present_pairs(walk.files@, keys),
            ),
{
    let grouped = match strategy {
        Strategy::Type => {
            let g = group_by_file_type(&walk.files);
            proof {
                lemma_type_grouping_is_partition(walk.files@, g@);
            }
            g
        },
        Strategy::Size => group_by_size(&walk.files, sizes),
        Strategy::Date => group_by_date(&walk.files, modified),
    };
    GroupResult {
        grouped,
        symlink_skip_count: walk.symlink_skip_count,
        organized_folder_skip_count: walk.organized_folder_skip_count,
        hidden_skip_count: walk.hidden_skip_count,
        files: walk.files,
    }
}

/// A scan's files all get a category under the type strategy, so the
/// grouping holds every one of them, each in the group of its category.
pub proof fn lemma_type_grouping_is_partition(files: Seq<String>, groups: Seq<CategoryGroup>)
    requires
        groups_of(groups, present_pairs(files, type_keys(files))),
        total_grouped(groups) == present_pairs(files, type_keys(files)).len(),
    ensures
        total_grouped(groups) == files.len(),
        forall|k: int|
            0 <= k < files.len() ==> exists|i: int|
                0 <= i < groups.len() && (#[trigger] groups[i]).category@ == spec_category_of_path(
                    files[k]@,
                ) && groups[i].files@.contains(#[trigger] files[k]),
{
    lemma_present_pairs_all_keyed(files);
    let pairs = present_pairs(files, type_keys(files));
    assert forall|k: int| 0 <= k < files.len() implies exists|i: int|
        0 <= i < groups.len() && (#[trigger] groups[i]).category@ == spec_category_of_path(files[k]@)
            && groups[i].files@.contains(#[trigger] files[k]) by {
        assert(pairs[k] == (spec_category_of_path(files[k]@), files[k]));
        let i = choose|i: int| 0 <= i < groups.len() && (#[trigger] groups[i]).category@ == #[trigger] pairs[k].0;
        lemma_files_in_contains(pairs, k);
    }
}

proof fn lemma_present_pairs_all_keyed(files: Seq<String>)
    ensures
        present_pairs(files, type_keys(files)).len() == files.len(),
        forall|k: int|
            0 <= k < files.len() ==> #[trigger] present_pairs(files, type_keys(files))[k] == (
                spec_category_of_path(files[k]@),
                files[k],
            ),
    decreases files.len(),
{
    if files.len() > 0 {
        let prefix = files.drop_last();
        assert(type_keys(files).drop_last() =~= type_keys(prefix));
        lemma_present_pairs_all_keyed(prefix);
        assert forall|k: int| 0 <= k < files.len() implies #[trigger] present_pairs(files, type_keys(files))[k] == (
            spec_category_of_path(files[k]@),
            files[k],
        ) by {
            if k < prefix.len() {
                assert(present_pairs(prefix, type_keys(prefix))[k] == (spec_category_of_path(prefix[k]@), prefix[k]));
            }
        }
    }
}

/// The file of the k-th pair is among the files of its category.
pub proof fn lemma_files_in_contains(pairs: Seq<(Seq<char>, String)>, k: int)
    requires
        0 <= k < pairs.len(),
    ensures
        files_in_category(pairs, pairs[k].0).contains(pairs[k].1),
    decreases pairs.len(),
{
    let c = pairs[k].0;
    if k == pairs.len() - 1 {
        let rest = files_in_category(pairs.drop_last(), c);
        assert(files_in_category(pairs, c) == rest.push(pairs[k].1));
        assert(rest.push(pairs[k].1)[rest.len() as int] == pairs[k].1);
    } else {
        let prefix = pairs.drop_last();
        assert(prefix[k] == pairs[k]);
        lemma_files_in_contains(prefix, k);
        let rest = files_in_category(prefix, c);
        let i = choose|i: int| 0 <= i < rest.len() && rest[i] == pairs[k].1;
        if pairs.last().0 == c {
            assert(files_in_category(pairs, c)[i] == pairs[k].1);
        }
    }
}

} // verus!
