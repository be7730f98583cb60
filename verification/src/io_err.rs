//! The error raised when moving a file fails.

use vstd::prelude::*;

verus! {

/// The standard library's opaque input/output error, carried through
/// unread.
#[verifier::external_type_specification]
#[verifier::external_body]
pub struct ExIoError(std::io::Error);

/// An error that can happen when moving a file.
#[derive(Debug)]
pub enum MoveError {
    /// The file to move was not found.
    FileNotFound,
    /// The target to move the file to was not found.
    TargetNotFound,
    /// Any other error.
    OtherIO(std::io::Error),
}

impl MoveError {
    /// Whether this error stands for a missing source file.
    pub fn is_file_not_found(&self) -> (r: bool)
        ensures
            r == (self is FileNotFound),
    {
        match self {
            MoveError::FileNotFound => true,
            _ => false,
        }
    }

    /// Whether this error stands for a missing target folder.
    pub fn is_target_not_found(&self) -> (r: bool)
        ensures
            r == (self is TargetNotFound),
    {
        match self {
            MoveError::TargetNotFound => true,
            _ => false,
        }
    }
}

} // verus!
