//! Photo library indexing: a bounded-concurrency executor with progress
//! telemetry, and the summaries, mappings and metadata values that the
//! indexer works on.

pub mod count_table;
pub mod date_summary;
pub mod digest;
pub mod dispatch;
pub mod extensions;
pub mod grid;
pub mod json;
pub mod mapping;
pub mod meta;
pub mod order;
pub mod query;
pub mod report;
pub mod run;
pub mod summary;
pub mod text;
pub mod value_counter;
