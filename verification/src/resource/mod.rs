//! Typed world resources with change ticks, borrow locks, and scoped take/restore.
pub mod store;
