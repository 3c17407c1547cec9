//! The command line, as plain values.
use vstd::prelude::*;

verus! {

/// The command-line arguments: sources, destination and flags.
#[derive(Debug, Clone)]
pub struct CLIArgs {
    pub sources: Vec<String>,
    pub destination: String,
    /// Progress bar style: default, minimal, detailed.
    pub style: Option<String>,
    /// Copy directories recursively.
    pub recursive: bool,
    /// Number of concurrent copy operations for multiple files.
    pub concurrency: usize,
    /// Continue copying by skipping files that are already complete.
    pub continue_copy: bool,
    /// If an existing destination file cannot be opened, remove it and try again.
    pub force: bool,
    /// Prompt before overwrite.
    pub interactive: bool,
}

} // verus!
