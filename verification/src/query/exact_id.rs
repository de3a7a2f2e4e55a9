//! Policy for exact-id query lists when an id is unavailable or does not match.
use vstd::prelude::*;

verus! {

/// How exact-id queries treat unavailable or non-matching entity ids.
#[derive(Clone, Copy, Debug, Eq, PartialEq, Hash, Structural)]
pub enum ExactIdPolicy {
    /// Skip ids that are unavailable or fail structural filters.
    SkipUnavailable,
    /// Fail resolution on the first unavailable or policy-violating id.
    ErrorOnUnavailable,
}

impl Default for ExactIdPolicy {
    /// Skipping is the default.
    fn default() -> (r: ExactIdPolicy)
        ensures
            r == ExactIdPolicy::SkipUnavailable,
    {
        ExactIdPolicy::SkipUnavailable
    }
}

} // verus!
