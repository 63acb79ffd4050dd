//! Error taxonomy of the pipeline.
//!
//! Setup failures (`RunError`) abort a run before the line loop starts;
//! per-line failures are ordinary values (`ParseOutcome::Failed`) and never
//! stop the loop.

use vstd::prelude::*;

verus! {

/// A fatal failure raised while setting a run up.  Every variant carries a
/// human-readable description of what went wrong.
#[derive(Debug)]
pub enum RunError {
    /// Invalid configuration: an unknown output format name or an invalid
    /// patterns directory.
    Config(String),
    /// The pattern template failed to compile (malformed template or a
    /// reference to an unknown fragment).
    Compile(String),
    /// The chosen output destination, or its derived error sibling, already
    /// exists on disk.  The flags say which of the two paths conflicted.
    DestinationConflict { path: String, err_path: String, path_exists: bool, err_exists: bool },
    /// A file or stream could not be opened, read or written.
    Io(String),
}

impl RunError {
    /// A short label naming the error category.
    pub fn kind_label(&self) -> (r: &'static str)
        ensures
            r@ == self.spec_kind_label(),
    {
        match self {
            RunError::Config(_) => "configuration error",
            RunError::Compile(_) => "pattern compile error",
            RunError::DestinationConflict { .. } => "destination conflict",
            RunError::Io(_) => "i/o error",
        }
    }

    pub open spec fn spec_kind_label(&self) -> Seq<char> {
        match self {
            RunError::Config(_) => "configuration error"@,
            RunError::Compile(_) => "pattern compile error"@,
            RunError::DestinationConflict { .. } => "destination conflict"@,
            RunError::Io(_) => "i/o error"@,
        }
    }
}

} // verus!
