//! Explicit host state machine: a current value, the value it replaced, and at most one
//! pending transition that a later commit applies.
use vstd::prelude::*;

use crate::schedule::condition::{Condition, ConditionKind};
use crate::schedule::system::{FlushMode, System};
use crate::time::ChangeTick;

verus! {

/// Failure to queue a state transition on [`State`].
#[non_exhaustive]
#[derive(Clone, Debug, Eq, PartialEq)]
pub enum StateError {
    /// A different pending target is already queued.
    ConflictingTransition,
}

impl StateError {
    /// Human-readable description of the error.
    pub fn to_string(&self) -> (r: String)
        ensures
            r@ == "conflicting state transition request"@,
    {
        match self {
            StateError::ConflictingTransition => "conflicting state transition request".to_owned(),
        }
    }
}

/// Host-owned state resource with explicit current, previous, and pending boundaries.
pub struct State<S: Eq + 'static> {
    current: S,
    previous: Option<S>,
    pending: Option<S>,
    transition_tick: Option<ChangeTick>,
}

/// The four parts of a state value, as one tuple.
pub open spec fn state_parts<S: Eq + 'static>(s: State<S>) -> (S, Option<S>, Option<S>, Option<ChangeTick>) {
    (s.spec_current(), s.spec_previous(), s.spec_pending(), s.spec_transition_tick())
}

impl<S: Eq + 'static> State<S> {
    /// Active value.
    pub closed spec fn spec_current(self) -> S {
        self.current
    }

    /// Value replaced by the last committed transition.
    pub closed spec fn spec_previous(self) -> Option<S> {
        self.previous
    }

    /// Value awaiting commit.
    pub closed spec fn spec_pending(self) -> Option<S> {
        self.pending
    }

    /// Tick of the last committed transition.
    pub closed spec fn spec_transition_tick(self) -> Option<ChangeTick> {
        self.transition_tick
    }

    /// The pending value a well-behaved request of `next` leaves in `self`, and whether it
    /// succeeds: a request of the pending or the current value leaves everything as it is;
    /// any other value conflicts with a pending one, or becomes pending when none is.
    pub open spec fn requested(self, next: S) -> (Option<S>, bool) {
        if self.spec_pending() == Some(next) || self.spec_current() == next {
            (self.spec_pending(), true)
        } else {
            match self.spec_pending() {
                Some(p) => (Some(p), false),
                None => (Some(next), true),
            }
        }
    }

    /// State with `initial` as the current value and no pending transition.
    pub fn new(initial: S) -> (r: State<S>)
        ensures
            r.spec_current() == initial,
            r.spec_previous() is None,
            r.spec_pending() is None,
            r.spec_transition_tick() is None,
    {
        State { current: initial, previous: None, pending: None, transition_tick: None }
    }

    /// Active state value after the last committed transition.
    pub fn current(&self) -> (r: &S)
        ensures
            *r == self.spec_current(),
    {
        &self.current
    }

    /// Outgoing value from the most recent committed transition, if any.
    pub fn previous(&self) -> (r: Option<&S>)
        ensures
            match self.spec_previous() {
                Some(p) => r matches Some(x) && *x == p,
                None => r is None,
            },
    {
        self.previous.as_ref()
    }

    /// Requested next value awaiting commit, if any.
    pub fn pending(&self) -> (r: Option<&S>)
        ensures
            match self.spec_pending() {
                Some(p) => r matches Some(x) && *x == p,
                None => r is None,
            },
    {
        self.pending.as_ref()
    }

    /// Tick recorded when the last transition committed.
    pub fn transition_tick(&self) -> (r: Option<ChangeTick>)
        ensures
            r == self.spec_transition_tick(),
    {
        self.transition_tick
    }

    /// Queues `next` for commit; idempotent when it is already current or pending.
    ///
    /// Where `S`'s `==` is equality, the outcome is [`State::requested`]; whatever `S`'s
    /// `==` does, only the pending value can change, and a failure changes nothing.
    pub fn request(&mut self, next: S) -> (r: Result<(), StateError>)
        ensures
            final(self).spec_current() == old(self).spec_current(),
            final(self).spec_previous() == old(self).spec_previous(),
            final(self).spec_transition_tick() == old(self).spec_transition_tick(),
            r is Err ==> old(self).spec_pending() is Some && state_parts(*final(self)) == state_parts(*old(self)),
            r is Ok ==> final(self).spec_pending() == old(self).spec_pending() || (old(self).spec_pending() is None
                && final(self).spec_pending() == Some(next)),
            vstd::laws_eq::obeys_concrete_eq::<S>() ==> {
                &&& final(self).spec_pending() == old(self).requested(next).0
                &&& (r is Ok) == old(self).requested(next).1
            },
    {
        proof {
            reveal(vstd::laws_eq::obeys_concrete_eq);
        }
        if let Some(pending) = &self.pending {
            if *pending == next {
                return Ok(());
            }
        }
        if self.current == next {
            return Ok(());
        }
        if self.pending.is_some() {
            return Err(StateError::ConflictingTransition);
        }
        self.pending = Some(next);
        Ok(())
    }

    /// Commits the pending value, if any: it becomes current, the outgoing value becomes
    /// previous, and `tick` is recorded. Without a pending value nothing changes.
    pub fn apply_pending(&mut self, tick: ChangeTick)
        ensures
            match old(self).spec_pending() {
                Some(next) => {
                    &&& final(self).spec_current() == next
                    &&& final(self).spec_previous() == Some(old(self).spec_current())
                    &&& final(self).spec_pending() is None
                    &&& final(self).spec_transition_tick() == Some(tick)
                },
                None => state_parts(*final(self)) == state_parts(*old(self)),
            },
    {
        let mut taken: Option<S> = None;
        std::mem::swap(&mut taken, &mut self.pending);
        match taken {
            Some(next) => {
                let mut outgoing = next;
                std::mem::swap(&mut outgoing, &mut self.current);
                self.previous = Some(outgoing);
                self.transition_tick = Some(tick);
            },
            None => {},
        }
    }

    /// `self` with its pending value replaced by `pending`.
    pub closed spec fn with_pending(self, pending: Option<S>) -> State<S> {
        State { pending, ..self }
    }

    /// Requesting a value twice is the same as requesting it once: when the first request
    /// succeeds, the second succeeds too and changes nothing.
    pub proof fn law_request_idempotent(self, next: S)
        ensures
            self.requested(next).1 ==> self.with_pending(self.requested(next).0).requested(next) == (
                self.requested(next).0,
                true,
            ),
    {
    }

    /// A request that conflicts with the pending value keeps conflicting until a commit:
    /// repeating it fails again.
    pub proof fn law_conflict_persists(self, next: S)
        ensures
            !self.requested(next).1 ==> self.with_pending(self.requested(next).0).requested(next).1 == false,
    {
    }
}


/// `r` is a lifecycle hook of `State<S>` named `name` in `stage` running `body`: enabled,
/// flushing at the end of the frame, gated on one state-change condition on the one
/// resource it requires (the state), and with no ordering, set or event declaration.
pub open spec fn is_transition_hook<B>(r: System<B>, name: Seq<char>, stage: Seq<char>, body: B) -> bool {
    &&& r.spec_name() == name
    &&& r.spec_stage() == stage
    &&& r.spec_body() == body
    &&& r.spec_enabled()
    &&& r.spec_flush_mode() == FlushMode::Final
    &&& r.spec_before().len() == 0
    &&& r.spec_after().len() == 0
    &&& r.spec_before_sets().len() == 0
    &&& r.spec_after_sets().len() == 0
    &&& r.spec_in_set() is None
    &&& r.spec_conditions().len() == 1
    &&& r.spec_required().len() == 1
    &&& r.spec_conditions()[0].kind() == ConditionKind::StateChanged(r.spec_required()[0])
    &&& r.spec_roles().len() == 0
}

/// A hook that runs after a committed transition of `State<S>`: it sees the value the
/// transition replaced and the new current value.
pub fn on_transition<S: Eq + 'static, B>(name: &str, stage: &str, body: B) -> (r: System<B>)
    ensures
        is_transition_hook(r, name@, stage@, body),
{
    let state_id = crate::typeid::type_id_of::<State<S>>();
    System::new(name, stage, body).run_if(Condition::state_changed_of(state_id)).requires_resource(
        state_id,
    )
}

/// A hook that runs on entering a new state of `State<S>`; the same boundary as
/// [`on_transition`], named for readability.
pub fn on_enter<S: Eq + 'static, B>(name: &str, stage: &str, body: B) -> (r: System<B>)
    ensures
        is_transition_hook(r, name@, stage@, body),
{
    on_transition::<S, B>(name, stage, body)
}

} // verus!
