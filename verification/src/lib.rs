//! Post-processing of code-coverage reports.
//!
//! Instrumentation tools report some lines and branches as uncovered even
//! though they are unreachable or meaningless to execute: bare closing
//! delimiters, code generated by `derive` attributes, modules compiled only
//! under a test configuration, the never-taken back edge of a definite loop,
//! and ranges suppressed by magic comments.  This crate models such a report
//! in memory, applies a pipeline of source-aware correction rules to it, and
//! maps the corrected report back to its on-disk formats.

pub mod cobertura;
pub mod common;
pub mod coverage;
pub mod error;
pub mod fix;
pub mod laws;
pub mod lcov;
pub mod marker;
pub mod numeric;
pub mod parser;
pub mod pattern;
pub mod rule;
pub mod sequences;
pub mod text;

pub use coverage::BranchCoverage;
pub use coverage::FileCoverage;
pub use coverage::LineCoverage;
pub use coverage::PackageCoverage;
pub use coverage::TotalCoverage;
pub use fix::report_diff;
pub use fix::CoverageFixer;
pub use fix::CoverageSummary;
pub use rule::default_rules;
pub use rule::CloseBlockRule;
pub use rule::CommentRule;
pub use rule::DeriveRule;
pub use rule::LoopRule;
pub use rule::Rule;
pub use rule::TestRule;
