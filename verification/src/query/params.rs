//! Execution options for a resolved query.
use vstd::prelude::*;

use crate::query::cache::{QueryCache, QueryResultCache};
use crate::query::cursor::{wrong_fingerprint, QueryCursor};
use crate::query::error::QueryError;
use crate::world::WorldOwner;
use crate::time::ChangeTick;

verus! {

/// Execution options for a resolved query: at most one of a fixed window start and a
/// cursor, and at most one of a membership cache and a result cache.
pub struct QueryParams<'a> {
    pub since: Option<ChangeTick>,
    pub cursor: Option<&'a mut QueryCursor>,
    pub membership_cache: Option<&'a QueryCache>,
    pub result_cache: Option<&'a QueryResultCache>,
}

impl<'a> QueryParams<'a> {
    /// No window, cursor or cache.
    pub fn new() -> (r: QueryParams<'a>)
        ensures
            r.since is None,
            r.cursor is None,
            r.membership_cache is None,
            r.result_cache is None,
    {
        QueryParams { since: None, cursor: None, membership_cache: None, result_cache: None }
    }

    /// Starts the window after `tick`, dropping a cursor.
    pub fn since(self, tick: ChangeTick) -> (r: QueryParams<'a>)
        ensures
            r.since == Some(tick),
            r.cursor is None,
            r.membership_cache == self.membership_cache,
            r.result_cache == self.result_cache,
    {
        QueryParams { since: Some(tick), cursor: None, membership_cache: self.membership_cache, result_cache: self.result_cache }
    }

    /// Follows `cursor`, dropping a fixed window start.
    pub fn cursor(self, cursor: &'a mut QueryCursor) -> (r: QueryParams<'a>)
        ensures
            r.since is None,
            r.cursor matches Some(c) && *c == *old(cursor) && *final(c) == *final(cursor),
            r.membership_cache == self.membership_cache,
            r.result_cache == self.result_cache,
    {
        QueryParams { since: None, cursor: Some(cursor), membership_cache: self.membership_cache, result_cache: self.result_cache }
    }

    /// Uses a membership cache, dropping a result cache.
    pub fn membership_cache(self, cache: &'a QueryCache) -> (r: QueryParams<'a>)
        ensures
            r.since == self.since,
            r.cursor == self.cursor,
            r.membership_cache == Some(cache),
            r.result_cache is None,
    {
        QueryParams { since: self.since, cursor: self.cursor, membership_cache: Some(cache), result_cache: None }
    }

    /// Uses a result cache, dropping a membership cache.
    pub fn result_cache(self, cache: &'a QueryResultCache) -> (r: QueryParams<'a>)
        ensures
            r.since == self.since,
            r.cursor == self.cursor,
            r.result_cache == Some(cache),
            r.membership_cache is None,
    {
        QueryParams { since: self.since, cursor: self.cursor, membership_cache: None, result_cache: Some(cache) }
    }
}

impl<'a> QueryParams<'a> {
    /// Where the window starts: the fixed start when one is set, else the cursor's position
    /// once the cursor is checked against the world `owner` and the query `fingerprint`,
    /// else the beginning.
    pub fn since_tick(&self, fingerprint: u64, owner: &WorldOwner) -> (r: Result<ChangeTick, QueryError>)
        ensures
            self.since matches Some(t) ==> r == Ok::<ChangeTick, QueryError>(t),
            self.since is None && self.cursor is None ==> (r matches Ok(t) && t@ == 0),
            self.since is None ==> match self.cursor {
                Some(c) => match r {
                    Ok(t) => t == c.spec_since() && c.spec_fingerprint() == fingerprint,
                    Err(e) => e is WrongOwner || (c.spec_fingerprint() != fingerprint && wrong_fingerprint(e)),
                },
                None => true,
            },
    {
        match self.since {
            Some(since) => {
                return Ok(since);
            },
            None => {},
        }
        match &self.cursor {
            Some(cursor) => {
                match cursor.validate(owner, fingerprint) {
                    Ok(()) => Ok(cursor.since()),
                    Err(e) => Err(e),
                }
            },
            None => Ok(ChangeTick::zero()),
        }
    }

    /// Moves the cursor, if there is one, to `captured_now` once it is checked against the
    /// world `owner` and the query `fingerprint`; a rejected cursor is left where it was.
    pub fn commit_cursor(&mut self, fingerprint: u64, owner: &WorldOwner, captured_now: ChangeTick) -> (r: Result<(), QueryError>)
        ensures
            final(self).since == old(self).since,
            final(self).cursor is Some == old(self).cursor is Some,
            old(self).cursor is None ==> r is Ok,
            match old(self).cursor {
                Some(c) => match r {
                    Ok(()) => c.spec_fingerprint() == fingerprint && (final(self).cursor matches Some(f) && f.spec_since()
                        == captured_now && f.spec_fingerprint() == fingerprint),
                    Err(e) => (e is WrongOwner || (c.spec_fingerprint() != fingerprint && wrong_fingerprint(e)))
                        && (final(self).cursor matches Some(f) && f.spec_since() == c.spec_since()),
                },
                None => true,
            },
    {
        match &mut self.cursor {
            Some(cursor) => {
                match cursor.validate(owner, fingerprint) {
                    Ok(()) => {},
                    Err(e) => {
                        return Err(e);
                    },
                }
                cursor.commit(captured_now);
                Ok(())
            },
            None => Ok(()),
        }
    }
}

impl<'a> Default for QueryParams<'a> {
    /// No window, cursor or cache.
    fn default() -> (r: QueryParams<'a>)
        ensures
            r.since is None,
            r.cursor is None,
            r.membership_cache is None,
            r.result_cache is None,
    {
        QueryParams::new()
    }
}

} // verus!
