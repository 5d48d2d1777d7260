//! A recursive text search: every regular file below a directory is searched
//! line by line for a regular expression, and the outcome of each file is
//! tallied into a count of successes and failures.
//!
//! The library holds the logic: compiling the pattern, splitting a file's
//! bytes into lines, decoding and matching them, sorting directory entries
//! into file searches and subdirectories, and summing the outcomes of a whole
//! directory tree. Reading the file system, spawning the searches and printing
//! are left to the caller.
pub mod matcher;
pub mod search;
pub mod tally;
pub mod text;
pub mod walk;

pub use matcher::{ConfigError, Matcher};
pub use text::split_lines;
pub use search::{search_file, FileRead, FileSearch};
pub use tally::{tally, JobOutcome, SearchError, SearchTree, Tally};
pub use walk::{classify_entries, EntryKind};
