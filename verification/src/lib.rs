//! Language statistics of a project tree: tallies of files or kilobytes per
//! language, the ranked rows derived from them, and their renderings.
//!
//! Everything is computed in integers. A percentage is kept as the share it
//! stands for, a part of a whole, so that sums are exact and every rounding
//! is stated. What was found in the tree comes in as plain values; text and
//! structured results go out as plain values.

pub mod args;
pub mod color;
pub mod dto;
pub mod format;
pub mod graphs;
pub mod percentage;
pub mod report;
pub mod stats;
pub mod table;
pub mod tally;
pub mod text;
