//! Names of category folders.
use vstd::prelude::*;

use crate::group::Strategy;
use crate::path::{file_name, spec_file_name};
use crate::text::{
    ascii_uppercase, concat_str, ends_with, is_ascii_chars, push_char, str_ends_with, str_eq, to_uppercase, uppercase_of,
};

verus! {

/// Name of the empty marker file that every category folder holds.
pub const ORGANIZED_CATEGORY_MARKER: &'static str = ".ocorganize-category";

/// Whether a folder name is one that this organizer gives category folders:
/// "no_extension", or anything ending in "_FILES".
pub open spec fn is_category_folder_name(name: Seq<char>) -> bool {
    name == "no_extension"@ || ends_with(name, "_FILES"@)
}

/// Whether a directory's file name, where it has one, is a category folder
/// name.
pub open spec fn name_is_category(name: Option<Seq<char>>) -> bool {
    match name {
        Some(n) => is_category_folder_name(n),
        None => false,
    }
}

/// Whether the directory at `path` is a category folder, by its name or by
/// the marker file inside it (`marker_present`, observed by the caller).
pub open spec fn spec_is_organized_category_dir(path: Seq<char>, marker_present: bool) -> bool {
    name_is_category(spec_file_name(path)) || marker_present
}

/// A category label with spaces turned into '_' and parentheses dropped.
pub open spec fn normalize_category(s: Seq<char>) -> Seq<char>
    decreases s.len(),
{
    if s.len() == 0 {
        Seq::<char>::empty()
    } else {
        let rest = normalize_category(s.drop_last());
        let c = s.last();
        if c == ' ' {
            rest.push('_')
        } else if c == '(' || c == ')' {
            rest
        } else {
            rest.push(c)
        }
    }
}

/// The folder that holds a category: "no_extension" stays as it is under the
/// type strategy; any other label is normalized, upper-cased and given the
/// suffix "_FILES".
pub open spec fn spec_target_folder_name(category: Seq<char>, strategy: Strategy) -> Seq<char> {
    if strategy == Strategy::Type && category == "no_extension"@ {
        "no_extension"@
    } else {
        uppercase_of(normalize_category(category)) + "_FILES"@
    }
}

pub fn is_organized_category_folder_name(name: &str) -> (r: bool)
    ensures
        r == is_category_folder_name(name@),
{
    str_eq(name, "no_extension") || str_ends_with(name, "_FILES")
}

/// Whether the directory at `path` is a category folder: by its name, or by
/// the marker file inside it, which the caller has looked for.
pub fn is_organized_category_dir(path: &str, marker_present: bool) -> (r: bool)
    ensures
        r == spec_is_organized_category_dir(path@, marker_present),
{
    let by_name = match file_name(path) {
        Some(name) => is_organized_category_folder_name(name.as_str()),
        None => false,
    };
    by_name || marker_present
}

/// A category label with spaces turned into '_' and parentheses dropped.
pub fn normalize_category_label(category: &str) -> (r: String)
    ensures
        r@ == normalize_category(category@),
{
    let mut r = String::new();
    for c in iter: category.chars()
        invariant
            iter.seq() == category@,
            r@ == normalize_category(category@.take(iter.index() as int)),
    {
        let ghost before = category@.take(iter.index() as int);
        assert(category@.take(iter.index() + 1).drop_last() =~= before);
        if c == ' ' {
            push_char(&mut r, '_');
        } else if c == '(' || c == ')' {
        } else {
            push_char(&mut r, c);
        }
    }
    assert(category@.take(category@.len() as int) =~= category@);
    r
}

/// The folder name for an already normalized and upper-cased label.
pub fn category_folder_name(normalized_upper: &str) -> (r: String)
    ensures
        r@ == normalized_upper@ + "_FILES"@,
{
    concat_str(normalized_upper, "_FILES")
}

/// The folder that holds a category under a strategy.
pub fn get_target_folder_name(category: &str, strategy: Strategy) -> (r: String)
    ensures
        r@ == spec_target_folder_name(category@, strategy),
        (!(strategy == Strategy::Type && category@ == "no_extension"@) && is_ascii_chars(normalize_category(category@)))
            ==> r@ == ascii_uppercase(normalize_category(category@)) + "_FILES"@,
{
    if strategy == Strategy::Type && str_eq(category, "no_extension") {
        return String::from_str("no_extension");
    }
    let normalized = normalize_category_label(category);
    let upper = to_uppercase(normalized.as_str());
    category_folder_name(upper.as_str())
}

/// Under every strategy, a category other than the type strategy's
/// "no_extension" goes into the folder named after the whole category:
/// normalized, upper-cased, and followed by "_FILES".
pub proof fn lemma_folder_names_whole_category(category: Seq<char>, strategy: Strategy)
    ensures
        !(strategy == Strategy::Type && category == "no_extension"@) ==> spec_target_folder_name(category, strategy)
            == uppercase_of(normalize_category(category)) + "_FILES"@,
        (strategy == Strategy::Type && category == "no_extension"@) ==> spec_target_folder_name(category, strategy)
            == "no_extension"@,
{
}

/// Two categories of a strategy (neither the type strategy's
/// "no_extension") share a folder exactly when they agree once normalized
/// and upper-cased: categories that differ there never share a folder.
pub proof fn lemma_folder_names_distinguish_categories(c1: Seq<char>, c2: Seq<char>, strategy: Strategy)
    requires
        !(strategy == Strategy::Type && c1 == "no_extension"@),
        !(strategy == Strategy::Type && c2 == "no_extension"@),
    ensures
        spec_target_folder_name(c1, strategy) == spec_target_folder_name(c2, strategy) <==> uppercase_of(
            normalize_category(c1),
        ) == uppercase_of(normalize_category(c2)),
{
    let u1 = uppercase_of(normalize_category(c1));
    let u2 = uppercase_of(normalize_category(c2));
    let f = "_FILES"@;
    if u1 + f == u2 + f {
        assert((u1 + f).len() == u1.len() + f.len());
        assert((u2 + f).len() == u2.len() + f.len());
        assert(u1.len() == u2.len());
        assert((u1 + f).subrange(0, u1.len() as int) =~= u1);
        assert((u2 + f).subrange(0, u2.len() as int) =~= u2);
    }
}

/// Every folder that the organizer files a category into is recognized as a
/// category folder, so later scans skip what it has organized.
pub proof fn lemma_target_folder_is_category_folder(category: Seq<char>, strategy: Strategy)
    ensures
        is_category_folder_name(spec_target_folder_name(category, strategy)),
{
    if !(strategy == Strategy::Type && category == "no_extension"@) {
        let u = uppercase_of(normalize_category(category));
        let f = "_FILES"@;
        let s = u + f;
        assert(s.subrange(s.len() - f.len(), s.len() as int) =~= f);
    }
}

} // verus!
