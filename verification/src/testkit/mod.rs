//! Deterministic replay, step records, drivers, and report comparison for host tests.
pub mod config;
pub mod driver;
pub mod error;
pub mod record;
pub mod replay;
pub mod report;
pub mod step;
