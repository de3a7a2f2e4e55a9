//! Checked monotonic revisions and fixed-width revision keys for cache identity.
use vstd::prelude::*;

verus! {

/// A checked monotonic revision counter.
#[derive(Copy, Clone, Debug, Default, Eq, Hash, Ord, PartialEq, PartialOrd)]
pub struct Revision(u64);

/// Returned when a [`Revision`] cannot advance without overflowing.
#[derive(Copy, Clone, Debug, Eq, PartialEq)]
pub struct RevisionExhausted;

impl View for Revision {
    type V = u64;

    closed spec fn view(&self) -> u64 {
        self.0
    }
}

impl Revision {
    /// Two values with the same view are the same value.
    pub broadcast proof fn lemma_view_injective(a: Revision, b: Revision)
        ensures
            #[trigger] a@ == #[trigger] b@ ==> a == b,
    {
    }
}

impl RevisionExhausted {
    /// Human-readable description of the error.
    pub fn to_string(&self) -> (r: String)
        ensures
            r@ == "revision exhausted"@,
    {
        "revision exhausted".to_owned()
    }
}

impl Revision {
    /// Revision with the raw value `raw`, for resuming from persisted state.
    pub fn from_raw(raw: u64) -> (r: Revision)
        ensures
            r@ == raw,
    {
        Revision(raw)
    }

    /// The initial revision.
    pub fn zero() -> (r: Revision)
        ensures
            r@ == 0,
    {
        Revision(0)
    }

    /// Returns the raw revision value.
    pub fn get(self) -> (r: u64)
        ensures
            r == self@,
    {
        self.0
    }

    /// Advances this revision, leaving it unchanged if the counter is exhausted.
    pub fn advance(&mut self) -> (r: Result<(), RevisionExhausted>)
        ensures
            old(self)@ < u64::MAX ==> r is Ok && final(self)@ == old(self)@ + 1,
            old(self)@ == u64::MAX ==> r is Err && final(self)@ == old(self)@,
    {
        match self.0.checked_add(1) {
            Some(next) => {
                self.0 = next;
                Ok(())
            },
            None => Err(RevisionExhausted),
        }
    }
}

/// A fixed-width collection of revisions suitable for cache keys.
#[derive(Copy, Clone, Debug, Eq, Hash, Ord, PartialEq, PartialOrd)]
pub struct RevisionKey<const N: usize>([Revision; N]);

impl<const N: usize> RevisionKey<N> {
    /// The ordered revision fields.
    pub closed spec fn spec_fields(&self) -> Seq<Revision> {
        self.0@
    }

    /// Key from its ordered revision fields.
    pub fn new(revisions: [Revision; N]) -> (r: RevisionKey<N>)
        ensures
            r.spec_fields() == revisions@,
    {
        RevisionKey(revisions)
    }

    /// The ordered revision fields.
    pub fn as_array(&self) -> (r: &[Revision; N])
        ensures
            r@ == self.spec_fields(),
    {
        &self.0
    }
}

impl<const N: usize> From<[Revision; N]> for RevisionKey<N> {
    /// Key from its ordered revision fields.
    fn from(revisions: [Revision; N]) -> (r: RevisionKey<N>) {
        RevisionKey(revisions)
    }
}

impl<const N: usize> vstd::std_specs::convert::FromSpecImpl<[Revision; N]> for RevisionKey<N> {
    open spec fn obeys_from_spec() -> bool {
        true
    }

    closed spec fn from_spec(v: [Revision; N]) -> RevisionKey<N> {
        RevisionKey(v)
    }
}

} // verus!
