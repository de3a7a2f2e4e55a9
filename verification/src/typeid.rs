//! Runtime type identity used as keys for resources, conditions and query selectors.
use vstd::prelude::*;

verus! {

/// `core::any::TypeId`, carried through the library as an opaque key.
#[verifier::external_type_specification]
#[verifier::external_body]
pub struct ExTypeId(core::any::TypeId);

/// Calls `core::any::TypeId::of::<T>()`: the identity of `T`.
#[verifier::external_body]
pub(crate) fn type_id_of<T: ?Sized + 'static>() -> (r: core::any::TypeId) {
    core::any::TypeId::of::<T>()
}

/// `<TypeId as Clone>::clone`: `TypeId` is `Copy`, so a clone is the same value.
pub assume_specification[ <core::any::TypeId as Clone>::clone ](a: &core::any::TypeId) -> (r: core::any::TypeId)
    ensures
        r == *a,
;

/// Calls `<TypeId as PartialEq>::eq`. A `TypeId` is nothing but its identity value,
/// so two ids compare equal exactly when they are the same value.
#[verifier::external_body]
pub(crate) fn same_type_id(a: &core::any::TypeId, b: &core::any::TypeId) -> (r: bool)
    ensures
        r == (*a == *b),
{
    *a == *b
}

} // verus!
