//! The command line of the search tool, as plain data. Parsing it is left to
//! the front end, which fills these types.

use vstd::prelude::*;

verus! {

#[verifier::external_type_specification]
#[verifier::external_body]
pub struct ExPathBuf(std::path::PathBuf);

/// Color output mode.
#[derive(Debug, Clone, Copy, PartialEq, Eq)]
pub enum ColorMode {
    /// Color when stdout is a terminal.
    Auto,
    /// Always emit color codes.
    Always,
    /// Never emit color codes.
    Never,
}

/// Output format for search results.
#[derive(Debug, Clone, Copy, PartialEq, Eq)]
pub enum OutputFormat {
    /// Grep-compatible format (file:line:col:content).
    Grep,
    /// JSON output.
    Json,
    /// Human-readable pretty output.
    Pretty,
}

/// A subcommand.
#[derive(Debug)]
pub enum Command {
    /// Search code in indexed files.
    Search {
        query: String,
        language: Option<String>,
        path: Option<String>,
        limit: usize,
        format: OutputFormat,
    },
    /// Search file names and paths.
    Files { query: Option<String>, language: Option<String>, limit: Option<usize> },
    /// Search symbols (functions, types, constants).
    Symbols { query: Option<String>, kind: Option<String>, language: Option<String>, limit: Option<usize> },
    /// Preview file contents.
    Preview { file: std::path::PathBuf, line: Option<usize>, context: Option<usize> },
    /// Show index status.
    Status,
    /// Trigger reindex of the repository.
    Reindex { full: bool },
}

/// The parsed command line.
#[derive(Debug)]
pub struct Cli {
    /// Color output mode.
    pub color: ColorMode,
    /// Repository root path (default: current directory).
    pub repo: Option<std::path::PathBuf>,
    /// Verbosity (number of `-v` flags).
    pub verbose: u8,
    /// The subcommand.
    pub command: Command,
}

} // verus!
