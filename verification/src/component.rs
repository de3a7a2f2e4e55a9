//! Registered component identity.
use vstd::prelude::*;

verus! {

/// Handle of a registered component type: its position in the component registry.
#[derive(Clone, Copy, Debug, Eq, PartialEq, Hash, Structural)]
pub struct ComponentId {
    index: u32,
}

impl ComponentId {
    /// Registry position.
    pub closed spec fn spec_index(&self) -> u32 {
        self.index
    }

    /// Handle of the component registered at `index`.
    pub fn from_index(index: u32) -> (r: ComponentId)
        ensures
            r.spec_index() == index,
    {
        ComponentId { index }
    }

    /// Registry position.
    pub fn index(&self) -> (r: usize)
        ensures
            r == self.spec_index(),
    {
        self.index as usize
    }
}

} // verus!
