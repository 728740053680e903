//! Contribution metrics for the repositories of a code-hosting organization.
//!
//! The crate holds the parts of the report generator that decide or compute:
//! how a cursor-paged query is accumulated, how pull requests are folded into
//! per-login counts, how rows are laid out for a sink, and how a repository's
//! contributors are ranked and classified.  Every executable function carries
//! a contract over a mathematical model of its arguments.

pub mod google_sheets;
pub mod metrics;
pub mod report;
pub mod text;
pub mod util;
