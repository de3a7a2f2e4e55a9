//! Query selection, windows, cursors, caches and membership bookkeeping.
pub mod cache;
pub mod cursor;
pub mod effects;
pub mod error;
pub mod exact_id;
pub mod iter;
pub mod params;
pub mod prepared;
pub mod spec;
