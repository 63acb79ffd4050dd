//! The options a run is started with, as plain values.  Command-line
//! parsing itself is I/O plumbing and lives outside the library; this is
//! the shape it must produce.

use vstd::prelude::*;
use crate::render::OutputFormat;

verus! {

/// The configuration of one run.
pub struct Opt {
    /// Pattern template to match.
    pub pattern: String,
    /// File to send output to; the console when absent.
    pub output: Option<String>,
    /// Custom patterns directory; the defaults are used when absent.
    pub patterns: Option<String>,
    /// When set, the catalog starts without the built-in fragments.
    pub no_patterns: bool,
    /// JSON or CSV output.
    pub output_format: OutputFormat,
    /// Whether to report parse statistics at the end of the run.
    pub stats: bool,
    /// Input paths; standard input when empty.
    pub input: Vec<String>,
    /// Rule paths, kept for compatibility with the original interface.
    pub rules: Vec<String>,
}

} // verus!
