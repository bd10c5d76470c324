//! The run's settings, fixed once at startup and read everywhere.

use vstd::prelude::*;

verus! {

/// Everything the selection and rendering decisions depend on.
///
/// `include_hidden` and `ignore_gitignore` configure the directory traversal
/// — suppressing dotfiles and honouring version-control ignore files is the
/// walker's job, never re-decided per entry — while the remaining fields
/// drive the per-entry and per-file decisions made in this library.
pub struct RunConfiguration {
    /// Extension allow-list, case-sensitive; empty means no restriction.
    pub extensions: Vec<String>,
    /// Keep hidden files and directories when walking.
    pub include_hidden: bool,
    /// Do not honour version-control ignore rules when walking.
    pub ignore_gitignore: bool,
    /// Glob patterns; an entry whose relative path matches any one is dropped.
    pub ignore_patterns: Vec<String>,
    /// Size ceiling as the user wrote it; re-parsed for each file.
    pub max_file_size: Option<String>,
    /// Cap on the lines kept per file.
    pub max_lines: Option<usize>,
    /// Enrich each header with size, line count and modified date.
    pub add_metadata: bool,
}

} // verus!
