//! Component storage engines: sparse sets and archetype tables.
pub mod sparse;
pub mod table;
pub mod erased;
pub mod archetype;
