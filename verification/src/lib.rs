//! Load-test orchestration harness: plans a doubling concurrency sweep over
//! two competing HTTP backends, parses the load generator's text report,
//! aggregates process resource usage, and lays out comparative bar charts.

pub mod charts;
pub mod invoke;
pub mod models;
pub mod parser;
pub mod resources;
pub mod sweep;
