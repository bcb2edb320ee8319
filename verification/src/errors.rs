//! Errors of the two phases: building a plan and carrying one out.
//!
//! Every variant carries the path it is about, so the caller can point the
//! user at the offending entry.

use vstd::prelude::*;

verus! {

/// Why no plan could be built. Building is all-or-nothing: the first error
/// aborts the whole planning phase and no partial plan is returned.
#[derive(Debug, PartialEq)]
pub enum BuildError {
    /// A required source path does not exist.
    NotFound { path: Vec<u8> },
    /// A required root path exists but is not a directory.
    NotADirectory { path: Vec<u8> },
    /// A source directory could not be read.
    Io { path: Vec<u8> },
    /// A source path could not be resolved to its canonical form.
    Canonicalize { path: Vec<u8> },
}

/// Mathematical image of a [`BuildError`].
pub ghost enum BuildErrorView {
    NotFound { path: Seq<u8> },
    NotADirectory { path: Seq<u8> },
    Io { path: Seq<u8> },
    Canonicalize { path: Seq<u8> },
}

impl View for BuildError {
    type V = BuildErrorView;

    open spec fn view(&self) -> BuildErrorView {
        match *self {
            BuildError::NotFound { path } => BuildErrorView::NotFound { path: path@ },
            BuildError::NotADirectory { path } => BuildErrorView::NotADirectory { path: path@ },
            BuildError::Io { path } => BuildErrorView::Io { path: path@ },
            BuildError::Canonicalize { path } => BuildErrorView::Canonicalize { path: path@ },
        }
    }
}

/// Why carrying out a plan stopped. The first action that fails aborts the
/// remaining actions; nothing already done is undone.
#[derive(Debug, PartialEq)]
pub enum ExecError {
    /// A rename, removal or symlink creation failed at this path.
    Io { path: Vec<u8> },
}

} // verus!
