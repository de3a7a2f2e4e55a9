//! Owner-scoped query cache handles.
use vstd::prelude::*;

use crate::world::WorldOwner;

verus! {

/// Handle to a cached structural membership set for one world owner and query spec.
#[derive(Clone)]
pub struct QueryCache {
    pub owner: WorldOwner,
    pub slot: u32,
    pub generation: u32,
}

/// Handle to a cached, fully materialized entity-id result for one world owner and query spec.
#[derive(Clone)]
pub struct QueryResultCache {
    pub owner: WorldOwner,
    pub slot: u32,
    pub generation: u32,
}

} // verus!
