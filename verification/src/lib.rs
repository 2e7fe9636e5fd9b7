//! Metrics for a source tree: line and complexity statistics per file,
//! commit-history rollups per file and per author, and detection of
//! duplicated blocks of lines across files.
//!
//! The library computes on plain values. A caller reads the files of the
//! tree into [`corpus::SourceFile`]s and the commits of its history into
//! [`git::CommitRecord`]s, and [`analyzer::analyze_repository`] returns
//! the whole record of the analysis. Each part of the analysis can also
//! be had alone:
//!
//! - [`census`]: files, extensions, languages and lines of each kind;
//! - [`git`]: the walk over the commits, with [`history`] as the model of
//!   what the walk accumulates and [`history_laws`] for what its numbers
//!   count;
//! - [`file_ages`]: the files by age, by commits and by change frequency;
//! - [`complexity`] and [`functions`]: the complexity estimate of a text
//!   and the functions in it, and [`code_metrics`] for both over a tree;
//! - [`duplicates`]: duplicated blocks of two files and of a tree, with
//!   [`symmetry`] for the order of the two files.
//!
//! Every function is verified against its contract. Rates and averages
//! are exact fractions ([`ratio::Ratio`]); counters saturate at the
//! largest `usize` and the contracts say so. What regular expressions
//! match, the lower-case form of a text and the local date of a time come
//! from `regex`, the standard library and `chrono`; [`pattern`],
//! [`corpus`] and [`clock`] hold the few functions whose contracts are
//! taken on trust from them.

pub mod analyzer;
pub mod census;
pub mod cli;
pub mod clock;
pub mod code_metrics;
pub mod complexity;
pub mod config;
pub mod corpus;
pub mod counts;
pub mod duplicates;
pub mod file_ages;
pub mod functions;
pub mod git;
pub mod history;
pub mod history_laws;
pub mod line_types;
pub mod pattern;
pub mod ranking;
pub mod ratio;
pub mod report;
pub mod seq_util;
pub mod symmetry;
pub mod text;

pub use analyzer::RepositoryAnalysis;
pub use cli::Cli;
pub use config::Config;
