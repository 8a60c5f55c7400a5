//! Access-log statistics: a parser for nginx "combined"-style log lines,
//! an aggregator that folds parsed records into per-dimension tables, and a
//! reporter that renders the ranked tables as text.

pub mod clock;
pub mod log;
pub mod nginx;
pub mod options;
pub mod printer;
pub mod ranking;
pub mod stats;
pub mod table;
pub mod text;
pub mod utils;

pub use utils::{format_bytes, format_duration, format_number};
