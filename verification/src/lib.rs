//! Per-language line counts of a source tree.
//!
//! A run has two halves. The collector takes the entries that a directory
//! walk met and decides which files are eligible for counting: it applies the
//! ignored names, the dot-file rule, the extensions of the tracked languages
//! and the ignore files of the directories above each file. The composition
//! engine takes the text of the eligible files, classifies every line as
//! countable or excluded, and adds the countable lines up, first per
//! extension and then per tracked language.
//!
//! The library reads no file and walks no directory. Its callers hand it the
//! entries of a walk and the text of the files; what comes back is proved
//! against the definitions in this crate.
//!
//! - [`config`] and [`defaults`]: the ignore policy and the registry of
//!   tracked languages, and the checks that make a parsed configuration
//!   ready for use.
//! - [`pattern`]: the line-exclusion patterns.
//! - [`walk`]: the entries of a directory walk as a tree.
//! - [`resolver`]: ignore files and their precedence.
//! - [`collector`]: traversal pruning and the filters on files.
//! - [`composition`] and [`totals`]: counting lines and adding them up.
//! - [`engine`]: both halves in one call.
//! - [`laws`]: what holds of every run.
//! - [`settings`] and [`color`]: fixed rules for a run without a
//!   configuration, and colour codes.
//! - [`text`]: the text primitives the other modules share.

pub mod collector;
pub mod color;
pub mod composition;
pub mod config;
pub mod defaults;
pub mod engine;
pub mod laws;
pub mod pattern;
pub mod resolver;
pub mod settings;
pub mod text;
pub mod totals;
pub mod walk;
