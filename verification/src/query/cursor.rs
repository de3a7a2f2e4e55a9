//! Owner- and spec-scoped last-observed tick for added/changed windows.
use vstd::prelude::*;

use crate::query::error::QueryError;
use crate::time::ChangeTick;
use crate::world::WorldOwner;

verus! {

/// `e` reports a cursor that follows another query.
pub open spec fn wrong_fingerprint(e: QueryError) -> bool {
    e matches QueryError::WrongQuery { detail } && detail@ == "cursor fingerprint does not match query spec"@
}

/// `r` is what checking a cursor of query `cursor_fingerprint` against the query
/// `fingerprint` gives when the owner comparison answered `owner_matches`: `WrongOwner` for
/// another world, else `WrongQuery` for another query, else `Ok`.
pub open spec fn cursor_checked(r: Result<(), QueryError>, owner_matches: bool, cursor_fingerprint: u64, fingerprint: u64) -> bool {
    if !owner_matches {
        r == Err::<(), QueryError>(QueryError::WrongOwner)
    } else if cursor_fingerprint != fingerprint {
        r matches Err(e) && wrong_fingerprint(e)
    } else {
        r is Ok
    }
}

/// The window start after committing a cursor at `since` of query `cursor_fingerprint` for
/// the query `fingerprint` at `captured_now`, when the owner comparison answered
/// `owner_matches`.
pub open spec fn committed_since(
    since: ChangeTick,
    owner_matches: bool,
    cursor_fingerprint: u64,
    fingerprint: u64,
    captured_now: ChangeTick,
) -> ChangeTick {
    if owner_matches && cursor_fingerprint == fingerprint {
        captured_now
    } else {
        since
    }
}

/// Checks a cursor of query `cursor_fingerprint` against the query `fingerprint`, given
/// whether the cursor belongs to the checking world.
pub fn check_cursor(owner_matches: bool, cursor_fingerprint: u64, fingerprint: u64) -> (r: Result<(), QueryError>)
    ensures
        cursor_checked(r, owner_matches, cursor_fingerprint, fingerprint),
{
    if !owner_matches {
        return Err(QueryError::WrongOwner);
    }
    if cursor_fingerprint != fingerprint {
        return Err(QueryError::WrongQuery { detail: "cursor fingerprint does not match query spec".to_owned() });
    }
    Ok(())
}

/// Owner- and spec-scoped last-observed tick for added/changed windows.
pub struct QueryCursor {
    owner: WorldOwner,
    fingerprint: u64,
    last_observed: ChangeTick,
}

impl QueryCursor {
    /// Fingerprint of the query spec the cursor follows.
    pub closed spec fn spec_fingerprint(&self) -> u64 {
        self.fingerprint
    }

    /// Tick the next window starts after.
    pub closed spec fn spec_since(&self) -> ChangeTick {
        self.last_observed
    }

    /// A cursor for the world `owner` and the query `fingerprint` whose first window starts
    /// at the beginning of time.
    pub fn from_start(owner: WorldOwner, fingerprint: u64) -> (r: QueryCursor)
        ensures
            r.spec_fingerprint() == fingerprint,
            r.spec_since()@ == 0,
    {
        QueryCursor { owner, fingerprint, last_observed: ChangeTick::zero() }
    }

    /// A cursor for the world `owner` and the query `fingerprint` whose first window starts
    /// after the world's current tick `now`.
    pub fn from_now(owner: WorldOwner, fingerprint: u64, now: ChangeTick) -> (r: QueryCursor)
        ensures
            r.spec_fingerprint() == fingerprint,
            r.spec_since() == now,
    {
        QueryCursor { owner, fingerprint, last_observed: now }
    }

    /// Checks that the cursor belongs to the world `owner` (`WrongOwner` otherwise) and to
    /// the query `fingerprint` (`WrongQuery` otherwise), the owner first. Which world issued
    /// a cursor is allocation identity, which is not modelled: the result is
    /// [`check_cursor`]'s for the answer of the owner comparison, whichever it was.
    pub fn validate(&self, owner: &WorldOwner, fingerprint: u64) -> (r: Result<(), QueryError>)
        ensures
            exists|owner_matches: bool| #[trigger] cursor_checked(r, owner_matches, self.spec_fingerprint(), fingerprint),
            r is Ok ==> self.spec_fingerprint() == fingerprint,
            r matches Err(e) ==> (e is WrongOwner || (self.spec_fingerprint() != fingerprint && wrong_fingerprint(e))),
    {
        let owner_matches = self.same_owner(owner);
        let r = check_cursor(owner_matches, self.fingerprint, fingerprint);
        proof {
            assert(cursor_checked(r, owner_matches, self.spec_fingerprint(), fingerprint));
        }
        r
    }

    /// Whether the cursor was issued by the world `owner`. Identity is the allocation
    /// address, so nothing is stated about the answer.
    pub fn same_owner(&self, owner: &WorldOwner) -> (r: bool) {
        self.owner.same(owner)
    }

    /// Moves the window start to `captured_now` when the cursor belongs to the checking
    /// world (`owner_matches`) and follows the query `fingerprint`; otherwise it stays.
    pub fn commit_checked(&mut self, owner_matches: bool, fingerprint: u64, captured_now: ChangeTick)
        ensures
            final(self).spec_since() == committed_since(
                old(self).spec_since(),
                owner_matches,
                old(self).spec_fingerprint(),
                fingerprint,
                captured_now,
            ),
            final(self).spec_fingerprint() == old(self).spec_fingerprint(),
    {
        if check_cursor(owner_matches, self.fingerprint, fingerprint).is_ok() {
            self.last_observed = captured_now;
        }
    }

    /// Tick the next window starts after.
    pub fn since(&self) -> (r: ChangeTick)
        ensures
            r == self.spec_since(),
    {
        self.last_observed
    }

    /// Moves the window start to `captured_now`.
    pub fn commit(&mut self, captured_now: ChangeTick)
        ensures
            final(self).spec_since() == captured_now,
            final(self).spec_fingerprint() == old(self).spec_fingerprint(),
    {
        self.last_observed = captured_now;
    }
}

} // verus!
