use vstd::prelude::*;

pub mod revision;
pub mod time;
pub mod entity;
pub mod storage;
pub mod typeid;
pub mod world;
pub mod schedule;
pub mod resource;
pub mod state;
pub mod text;
pub mod operation;
pub mod testkit;
pub mod query;
pub mod component;

verus! {
}
