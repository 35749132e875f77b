//! A small line-oriented text search library.
//!
//! The library resolves a run configuration (query, file path, case
//! sensitivity) from command-line style arguments and an environment
//! setting, and searches the lines of an already-loaded text for a query,
//! case-sensitively or case-insensitively.  Reading the file and printing
//! the matches are left to the caller.

pub mod config;
pub mod lines;
pub mod search;
pub mod text;

pub use config::Config;
pub use config::ConfigError;
pub use search::run_search;
pub use search::search;
pub use search::search_case_insensitive;
