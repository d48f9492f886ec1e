//! Decision logic of two full-text-search query engines: command parsing,
//! latency statistics, query construction and document-batch assembly.

pub mod text;
pub mod decimal;
pub mod sort;
pub mod latency;
pub mod command;
pub mod fts;
pub mod docs;
pub mod latency_log;
pub mod driver;

pub use command::{parse_command, Command};
pub use fts::{build_fts_query, build_query, sanitize_query};
pub use latency::{LatencyStats, LatencySummary};
