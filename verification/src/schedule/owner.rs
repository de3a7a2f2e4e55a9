//! Opaque schedule identity.
use vstd::prelude::*;

use std::rc::Rc;

verus! {

/// Calls `Rc::ptr_eq`: whether both handles share one allocation. The answer depends on
/// allocation identity, which nothing here models, so no result is stated.
#[verifier::external_body]
pub(crate) fn rc_ptr_eq(a: &Rc<()>, b: &Rc<()>) -> (r: bool) {
    Rc::ptr_eq(a, b)
}

/// Opaque schedule identity shared by runtime handles.
#[derive(Clone)]
pub struct ScheduleOwner(Rc<()>);

impl ScheduleOwner {
    /// Allocates a fresh schedule identity for handles and lease pairing.
    pub fn new() -> (r: ScheduleOwner) {
        ScheduleOwner(Rc::new(()))
    }

    /// Whether two handles were issued by the same compiled schedule (allocation identity).
    pub fn same(&self, other: &ScheduleOwner) -> (r: bool) {
        rc_ptr_eq(&self.0, &other.0)
    }
}

} // verus!
