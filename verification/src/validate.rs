//! Validation of a selected directory, as a sequence of checks.  The caller
//! performs each file-system probe that a step asks for and hands back what
//! it saw; the decisions are made here.
use vstd::prelude::*;

use crate::error::PathValidationError;
use crate::path::{join, spec_join};
use crate::text::{chars_of, string_from_chars, trim, trimmed_of};
use crate::path::sub_chars;

verus! {

/// Why resolving a path to its canonical form failed.
#[derive(Debug, Clone, PartialEq, Eq)]
pub struct CanonicalizeFailure {
    /// The failure was "not found".
    pub not_found: bool,
    /// The failure's message.
    pub message: String,
}

/// The next thing to do in validating a directory.
#[derive(Debug, PartialEq, Eq)]
pub enum DirectoryCheck {
    /// Look whether the path is a symbolic link.
    CheckSymlink(String),
    /// Resolve the path to its canonical form.
    Canonicalize(String),
    /// Look whether the resolved path is a directory.
    CheckIsDir(String),
    /// Read the resolved path's permissions: is it read-only?
    ReadPermissions(String),
    /// Validation is over.
    Done(Result<String, PathValidationError>),
}

/// What a probe saw.
#[derive(Debug, PartialEq, Eq)]
pub enum ProbeOutcome {
    IsSymlink(bool),
    Canonical(Result<String, CanonicalizeFailure>),
    IsDir(bool),
    /// Whether the permissions are read-only, or the error reading them.
    Permissions(Result<bool, String>),
}

/// The path with a leading "~" standing for the home directory, where one is
/// known: "~" alone, or "~/" followed by the rest.
pub open spec fn spec_expand_home(path: Seq<char>, home: Option<Seq<char>>) -> Seq<char> {
    match home {
        Some(h) => if path.len() >= 2 && path[0] == '~' && path[1] == '/' {
            spec_join(h, path.skip(2))
        } else if path == seq!['~'] {
            h
        } else {
            path
        },
        None => path,
    }
}

/// The first step of validating the path the user typed: it is trimmed,
/// refused when empty or when it holds a NUL, and its home prefix expanded.
pub open spec fn spec_first_check(raw: Seq<char>, home: Option<Seq<char>>) -> Option<Result<Seq<char>, PathValidationError>> {
    let trimmed = trimmed_of(raw);
    if trimmed.len() == 0 {
        Some(Err(PathValidationError::Empty))
    } else if trimmed.contains('\0') {
        Some(Err(PathValidationError::InvalidPath))
    } else {
        Some(Ok(spec_expand_home(trimmed, home)))
    }
}

/// The first check refuses a path only for being empty once trimmed
/// (`Empty`) or for holding a NUL (`InvalidPath`); any other path goes on to
/// the symlink check, trimmed and with its home prefix expanded.
pub proof fn lemma_first_check_refuses_only_empty_or_nul(raw: Seq<char>, home: Option<Seq<char>>)
    ensures
        spec_first_check(raw, home) == Some(Err::<Seq<char>, PathValidationError>(PathValidationError::Empty))
            <==> trimmed_of(raw).len() == 0,
        spec_first_check(raw, home) == Some(Err::<Seq<char>, PathValidationError>(PathValidationError::InvalidPath))
            <==> (trimmed_of(raw).len() > 0 && trimmed_of(raw).contains('\0')),
        (trimmed_of(raw).len() > 0 && !trimmed_of(raw).contains('\0')) ==> spec_first_check(raw, home) == Some(
            Ok::<Seq<char>, PathValidationError>(spec_expand_home(trimmed_of(raw), home)),
        ),
        spec_first_check(raw, home) is Some,
{
}

/// Expanding the home prefix changes only a path that is "~" or starts with
/// "~/", and only where a home directory is known; "~/rest" becomes the home
/// directory joined with "rest".
pub proof fn lemma_expand_home_only_touches_tilde(path: Seq<char>, home: Option<Seq<char>>)
    ensures
        (home is None || path.len() == 0 || path[0] != '~') ==> spec_expand_home(path, home) == path,
        (home is Some && path.len() >= 2 && path[0] == '~' && path[1] == '/') ==> spec_expand_home(path, home)
            == spec_join(home.unwrap(), path.skip(2)),
{
}

/// The home-expanded form of `path`.
pub fn expand_home(path: &str, home: Option<&str>) -> (r: String)
    ensures
        r@ == spec_expand_home(
            path@,
            match home {
                Some(h) => Some(h@),
                None => None,
            },
        ),
{
    let v = chars_of(path);
    match home {
        Some(h) => {
            if v.len() >= 2 && v[0] == '~' && v[1] == '/' {
                let rest = sub_chars(&v, 2, v.len());
                assert(rest@ =~= path@.skip(2));
                let rest_string = string_from_chars(&rest);
                join(h, rest_string.as_str())
            } else if v.len() == 1 && v[0] == '~' {
                assert(path@ =~= seq!['~']);
                String::from_str(h)
            } else {
                assert(!(path@ == seq!['~'])) by {
                    if path@ == seq!['~'] {
                        assert(path@[0] == '~');
                    }
                }
                String::from_str(path)
            }
        },
        None => String::from_str(path),
    }
}

fn holds_nul(v: &Vec<char>) -> (r: bool)
    ensures
        r == v@.contains('\0'),
{
    let mut i: usize = 0;
    while i < v.len()
        invariant
            i <= v.len(),
            forall|j: int| 0 <= j < i ==> v@[j] != '\0',
        decreases v.len() - i,
    {
        if v[i] == '\0' {
            return true;
        }
        i += 1;
    }
    false
}

/// The first step of validating the path the user typed; `home` is the
/// home directory, where the environment names one.
pub fn start_directory_validation(raw_path: &str, home: Option<&str>) -> (r: DirectoryCheck)
    ensures
        ({
            let first = spec_first_check(
                raw_path@,
                match home {
                    Some(h) => Some(h@),
                    None => None,
                },
            );
            match r {
                DirectoryCheck::Done(Err(e)) => first == Some(Err::<Seq<char>, PathValidationError>(e)),
                DirectoryCheck::CheckSymlink(p) => first == Some(Ok::<Seq<char>, PathValidationError>(p@)),
                _ => false,
            }
        }),
{
    let trimmed = trim(raw_path);
    let v = chars_of(trimmed);
    if v.len() == 0 {
        return DirectoryCheck::Done(Err(PathValidationError::Empty));
    }
    if holds_nul(&v) {
        return DirectoryCheck::Done(Err(PathValidationError::InvalidPath));
    }
    DirectoryCheck::CheckSymlink(expand_home(trimmed, home))
}

/// The step that follows `step` once its probe saw `outcome`.  An outcome
/// that does not answer the step leaves the step as it is.
pub fn advance_directory_validation(step: DirectoryCheck, outcome: ProbeOutcome) -> (r: DirectoryCheck)
    ensures
        match (step, outcome) {
            (DirectoryCheck::CheckSymlink(p), ProbeOutcome::IsSymlink(true)) => r == DirectoryCheck::Done(
                Err(PathValidationError::SymlinkedDirectory),
            ),
            (DirectoryCheck::CheckSymlink(p), ProbeOutcome::IsSymlink(false)) => r
                == DirectoryCheck::Canonicalize(p),
            (DirectoryCheck::Canonicalize(_), ProbeOutcome::Canonical(Ok(resolved))) => r
                == DirectoryCheck::CheckIsDir(resolved),
            (DirectoryCheck::Canonicalize(_), ProbeOutcome::Canonical(Err(failure))) => r
                == DirectoryCheck::Done(
                Err(
                    if failure.not_found {
                        PathValidationError::NotFound
                    } else {
                        PathValidationError::InvalidDirectory(failure.message)
                    },
                ),
            ),
            (DirectoryCheck::CheckIsDir(_), ProbeOutcome::IsDir(false)) => r == DirectoryCheck::Done(
                Err(PathValidationError::NotADirectory),
            ),
            (DirectoryCheck::CheckIsDir(resolved), ProbeOutcome::IsDir(true)) => r
                == DirectoryCheck::ReadPermissions(resolved),
            (DirectoryCheck::ReadPermissions(_), ProbeOutcome::Permissions(Err(message))) => r
                == DirectoryCheck::Done(Err(PathValidationError::InvalidDirectory(message))),
            (DirectoryCheck::ReadPermissions(_), ProbeOutcome::Permissions(Ok(true))) => r
                == DirectoryCheck::Done(Err(PathValidationError::NotAccessible)),
            (DirectoryCheck::ReadPermissions(resolved), ProbeOutcome::Permissions(Ok(false))) => r
                == DirectoryCheck::Done(Ok(resolved)),
            (s, _) => r == s,
        },
{
    match (step, outcome) {
        (DirectoryCheck::CheckSymlink(_), ProbeOutcome::IsSymlink(true)) => DirectoryCheck::Done(
            Err(PathValidationError::SymlinkedDirectory),
        ),
        (DirectoryCheck::CheckSymlink(p), ProbeOutcome::IsSymlink(false)) => DirectoryCheck::Canonicalize(p),
        (DirectoryCheck::Canonicalize(_), ProbeOutcome::Canonical(Ok(resolved))) => DirectoryCheck::CheckIsDir(
            resolved,
        ),
        (DirectoryCheck::Canonicalize(_), ProbeOutcome::Canonical(Err(failure))) => {
            if failure.not_found {
                DirectoryCheck::Done(Err(PathValidationError::NotFound))
            } else {
                DirectoryCheck::Done(Err(PathValidationError::InvalidDirectory(failure.message)))
            }
        },
        (DirectoryCheck::CheckIsDir(_), ProbeOutcome::IsDir(false)) => DirectoryCheck::Done(
            Err(PathValidationError::NotADirectory),
        ),
        (DirectoryCheck::CheckIsDir(resolved), ProbeOutcome::IsDir(true)) => DirectoryCheck::ReadPermissions(
            resolved,
        ),
        (DirectoryCheck::ReadPermissions(_), ProbeOutcome::Permissions(Err(message))) => DirectoryCheck::Done(
            Err(PathValidationError::InvalidDirectory(message)),
        ),
        (DirectoryCheck::ReadPermissions(_), ProbeOutcome::Permissions(Ok(true))) => DirectoryCheck::Done(
            Err(PathValidationError::NotAccessible),
        ),
        (DirectoryCheck::ReadPermissions(resolved), ProbeOutcome::Permissions(Ok(false))) => DirectoryCheck::Done(
            Ok(resolved),
        ),
        (s, _) => s,
    }
}

} // verus!
