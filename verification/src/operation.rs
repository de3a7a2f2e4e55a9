//! The two kinds of frame work a stage belongs to.
use vstd::prelude::*;

verus! {

/// Operation a stage runs under: simulation updates or presentation.
#[derive(Copy, Clone, Debug, Eq, PartialEq, Hash, Structural)]
pub enum StageOperation {
    /// Simulation work; structural commands may flush.
    Update,
    /// Presentation work; the world is read-only.
    Render,
}

impl StageOperation {
    /// The variant's name, as `Debug` prints it.
    pub fn name(&self) -> (r: &'static str)
        ensures
            r@ == match *self {
                StageOperation::Update => "Update"@,
                StageOperation::Render => "Render"@,
            },
    {
        match self {
            StageOperation::Update => "Update",
            StageOperation::Render => "Render",
        }
    }
}

} // verus!
