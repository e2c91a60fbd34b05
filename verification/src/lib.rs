//! Scans the tracked files of a version-controlled workspace for lines that
//! carry the marker `TODO` (matched case-insensitively), attributes each such
//! line to the author-date that last touched it, and assembles a report of
//! (date, comment, file) records sorted by date.
//!
//! The library holds the logic: marker detection, attribution-line parsing,
//! comment extraction, sorting and rendering. Running the version-control
//! tool and reading files from disk belong to the surrounding program, which
//! hands captured output lines and file contents to these functions.

pub mod marker;
pub mod parse;
pub mod pipeline;
pub mod report;
pub mod text;
