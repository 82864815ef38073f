//! Verified core of a single-line shell prompt segment for git repositories.
//!
//! The crate turns one machine-readable status report into a structured
//! [`summary::RepoSummary`], renders its fragments as colorized display
//! strings, abbreviates filesystem paths by collapsing leading segments to
//! their shortest word-bearing prefix, and assembles the final prompt line.
//! Invoking the version-control binary itself is left to callers through the
//! [`prompt::VCS`] interface; every function here is pure and verified.

pub mod path;
pub mod prompt;
pub mod render;
pub mod status;
pub mod summary;
pub mod text;
