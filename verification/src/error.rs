//! Errors of directory validation.
use vstd::prelude::*;

use crate::text::concat_str;

verus! {

/// Why a selected directory cannot be organized.
#[derive(Debug, Clone, PartialEq, Eq)]
pub enum PathValidationError {
    Empty,
    InvalidPath,
    SymlinkedDirectory,
    NotFound,
    InvalidDirectory(String),
    NotADirectory,
    NotAccessible,
}

/// The message shown for an error.
pub open spec fn spec_error_message(e: PathValidationError) -> Seq<char> {
    match e {
        PathValidationError::Empty => "Please select a directory."@,
        PathValidationError::InvalidPath => "Invalid directory path."@,
        PathValidationError::SymlinkedDirectory => "Symlinked directories are not supported."@,
        PathValidationError::NotFound => "Directory does not exist."@,
        PathValidationError::InvalidDirectory(detail) => "Invalid directory: "@ + detail@,
        PathValidationError::NotADirectory => "Selected path is not a directory."@,
        PathValidationError::NotAccessible => "Directory must be readable and writable."@,
    }
}

impl PathValidationError {
    /// The message shown for this error.
    pub fn message(&self) -> (r: String)
        ensures
            r@ == spec_error_message(*self),
    {
        match self {
            PathValidationError::Empty => String::from_str("Please select a directory."),
            PathValidationError::InvalidPath => String::from_str("Invalid directory path."),
            PathValidationError::SymlinkedDirectory => String::from_str(
                "Symlinked directories are not supported.",
            ),
            PathValidationError::NotFound => String::from_str("Directory does not exist."),
            PathValidationError::InvalidDirectory(detail) => concat_str(
                "Invalid directory: ",
                detail.as_str(),
            ),
            PathValidationError::NotADirectory => String::from_str("Selected path is not a directory."),
            PathValidationError::NotAccessible => String::from_str(
                "Directory must be readable and writable.",
            ),
        }
    }
}

} // verus!
