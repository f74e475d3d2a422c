//! Micro-benchmark harness: repeated timed trials, deadline-bounded size discovery,
//! five-number summaries of the samples and the merge of per-algorithm series.
pub mod text;
pub mod errors;
pub mod fileio;
pub mod quartiles;
pub mod preprocess;
pub mod merge;
pub mod report;
pub mod timer;
pub mod deadline;
pub mod description;
pub mod measures;
pub mod config;
