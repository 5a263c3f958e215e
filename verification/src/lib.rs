//! Parallel aggregation of per-site and per-tag question statistics.
//!
//! The library folds decoded question records into per-site accumulators,
//! merges accumulators through a commutative and associative algebra, and
//! ranks sites and tags by their average words-per-question ratio.

pub mod error_execution;
pub mod parsing_error;
pub mod question;
pub mod question_information;
pub mod ranking;
pub mod report;
pub mod site;
pub mod sites_collection;
pub mod tag_information;
pub mod tags_collection;
pub mod text;
