//! Generational entity identifiers.
use vstd::prelude::*;

use crate::text::cat5;
use crate::time::{decimal_digits, u64_to_decimal};

verus! {

/// A generational entity handle: a storage slot plus the generation that owns it.
#[derive(Copy, Clone, Debug, Eq, PartialEq, Hash, Ord, PartialOrd, Structural)]
pub struct EntityId {
    slot: u32,
    generation: u32,
}

impl EntityId {
    /// Storage slot of this handle.
    pub closed spec fn spec_slot(self) -> u32 {
        self.slot
    }

    /// Generation of this handle.
    pub closed spec fn spec_generation(self) -> u32 {
        self.generation
    }

    /// Handle for `slot` at `generation`.
    pub fn from_parts(slot: u32, generation: u32) -> (r: EntityId)
        ensures
            r.spec_slot() == slot,
            r.spec_generation() == generation,
    {
        EntityId { slot, generation }
    }

    /// Storage slot of this handle.
    pub fn slot(&self) -> (r: u32)
        ensures
            r == self.spec_slot(),
    {
        self.slot
    }

    /// Generation of this handle.
    pub fn generation(&self) -> (r: u32)
        ensures
            r == self.spec_generation(),
    {
        self.generation
    }
}

/// Entity allocator rejection.
#[derive(Copy, Clone, Debug, Eq, PartialEq)]
pub enum AllocatorError {
    GenerationOverflow,
    SlotRetired,
    StaleEntity,
    DoubleFree,
    NotLive,
}

/// `Debug` rendering of an entity handle.
pub open spec fn entity_debug_text(e: EntityId) -> Seq<char> {
    "EntityId { slot: "@ + decimal_digits(e.spec_slot() as nat) + ", generation: "@ + decimal_digits(
        e.spec_generation() as nat,
    ) + " }"@
}

impl EntityId {
    /// `Debug` rendering of the handle.
    pub fn debug_text(&self) -> (r: String)
        ensures
            r@ == entity_debug_text(*self),
    {
        let slot = u64_to_decimal(self.slot as u64);
        let generation = u64_to_decimal(self.generation as u64);
        cat5("EntityId { slot: ", slot.as_str(), ", generation: ", generation.as_str(), " }")
    }
}

} // verus!
