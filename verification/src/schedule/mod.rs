//! Schedule authoring, validation and run-time control.
pub mod builder;
pub mod compiled;
pub mod condition;
pub mod context;
pub mod error;
pub mod graph;
pub mod owner;
pub mod runner;
pub mod stage;
pub mod system;
