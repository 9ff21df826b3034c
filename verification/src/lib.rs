//! Analyzer for line-oriented mission logs: parses pipe-delimited mission
//! records, filters them through a multi-stage rule set (target destination,
//! completed status, positive duration, well-formed security code), and
//! accumulates run statistics. Ranking the accepted records by duration is
//! also provided; reading the log and formatting the results live outside
//! this crate.

pub mod mission;
pub mod pipeline;
pub mod rank;
pub mod text;
pub mod tokens;
