//! The library's error kinds, and the decisions taken on each kind.

use vstd::prelude::*;

verus! {

/// A failure, with the path and underlying cause where there is one.
#[derive(Clone, Debug)]
pub enum PtimeError {
    /// The scan root could not be resolved to a canonical path.
    CanonicalizationError { path: String, source: String },
    /// A directory entry could not be read during the walk.
    DirectoryReadError { path: String, source: String },
    /// A found file does not lie under the canonical root.
    RelativePathError { path: String },
    /// A file could not be opened or read.
    Io(String),
    /// A file's metadata container could not be parsed.
    Exif(String),
}

impl PtimeError {
    /// Errors that come from the environment rather than from the input.
    pub open spec fn is_io_class(&self) -> bool {
        ||| self is Io
        ||| self is CanonicalizationError
        ||| self is DirectoryReadError
    }

    /// The process exit status for this error: 3 for environment problems,
    /// 1 for every other kind.
    pub fn exit_code(&self) -> (r: i32)
        ensures
            r == (if self.is_io_class() { 3i32 } else { 1i32 }),
    {
        match self {
            PtimeError::Io(_)
            | PtimeError::CanonicalizationError { .. }
            | PtimeError::DirectoryReadError { .. } => 3,
            _ => 1,
        }
    }

    /// Whether this error, met on one file during collection, ends the whole
    /// collection; every other per-file error only skips the file.
    pub fn aborts_collection(&self) -> (r: bool)
        ensures
            r == self is Io,
    {
        match self {
            PtimeError::Io(_) => true,
            _ => false,
        }
    }
}

} // verus!
