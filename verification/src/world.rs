//! World-level identity and error types shared by resources, queries and schedules.
use vstd::prelude::*;

use std::rc::Rc;

use crate::resource::store::ResourceStore;
use crate::text::cat3;

verus! {

/// Failure reported by world resource, component and run-guard operations.
#[derive(Clone, Debug, Eq, PartialEq)]
pub enum WorldError {
    /// A nested operation was started while one is running.
    NestedRun,
    /// The named component type is not registered.
    UnregisteredComponent { name: String },
    /// The named resource type is not registered.
    UnregisteredResource { name: String },
    /// The named resource is taken out for a scoped access, or a scope is already open.
    ResourceScoped { name: String },
    /// The named resource is locked by a live schedule.
    ResourceInUse { name: String },
}

impl WorldError {
    /// Human-readable description of the failure.
    pub open spec fn message(self) -> Seq<char> {
        match self {
            WorldError::NestedRun => "world operation already running"@,
            WorldError::UnregisteredComponent { name } => "unregistered component '"@ + name@ + "'"@,
            WorldError::UnregisteredResource { name } => "unregistered resource '"@ + name@ + "'"@,
            WorldError::ResourceScoped { name } => "resource '"@ + name@ + "' is scoped"@,
            WorldError::ResourceInUse { name } => "resource '"@ + name@ + "' is in use"@,
        }
    }

    /// Human-readable description of the failure.
    pub fn to_string(&self) -> (r: String)
        ensures
            r@ == self.message(),
    {
        match self {
            WorldError::NestedRun => "world operation already running".to_owned(),
            WorldError::UnregisteredComponent { name } => cat3("unregistered component '", name.as_str(), "'"),
            WorldError::UnregisteredResource { name } => cat3("unregistered resource '", name.as_str(), "'"),
            WorldError::ResourceScoped { name } => cat3("resource '", name.as_str(), "' is scoped"),
            WorldError::ResourceInUse { name } => cat3("resource '", name.as_str(), "' is in use"),
        }
    }

    /// `self` reports that the resource named `name` is scoped.
    pub open spec fn is_scoped(self, name: Seq<char>) -> bool {
        self matches WorldError::ResourceScoped { name: n } && n@ == name
    }

    /// `self` reports that the resource named `name` is not registered.
    pub open spec fn is_unregistered_resource(self, name: Seq<char>) -> bool {
        self matches WorldError::UnregisteredResource { name: n } && n@ == name
    }

    /// `self` reports that the resource named `name` is locked.
    pub open spec fn is_in_use(self, name: Seq<char>) -> bool {
        self matches WorldError::ResourceInUse { name: n } && n@ == name
    }
}

/// `r` failed because the resource named `name` is scoped.
pub open spec fn fails_scoped<T>(r: Result<T, WorldError>, name: Seq<char>) -> bool {
    r matches Err(e) && e.is_scoped(name)
}

/// `r` failed because the resource named `name` is not registered.
pub open spec fn fails_unregistered<T>(r: Result<T, WorldError>, name: Seq<char>) -> bool {
    r matches Err(e) && e.is_unregistered_resource(name)
}

/// `r` failed because the resource named `name` is locked.
pub open spec fn fails_in_use<T>(r: Result<T, WorldError>, name: Seq<char>) -> bool {
    r matches Err(e) && e.is_in_use(name)
}

/// Whether a world operation is running, and which.
#[derive(Clone, Copy, Debug, Eq, PartialEq, Structural)]
pub enum RunGuard {
    Idle,
    Running(crate::operation::StageOperation),
}

/// What building a schedule reads of a world: whether deferred commands are pending, the
/// run guard, whether an earlier mutation was interrupted, whether a live schedule is
/// already attached, and the resources.
pub struct WorldState<'a, V> {
    pub pending_commands: bool,
    pub run_guard: RunGuard,
    pub mutation_poisoned: bool,
    pub live_lease: bool,
    pub resources: &'a ResourceStore<V>,
}

/// Opaque world identity shared by owner-scoped handles (queries, cursors, caches).
#[derive(Clone)]
pub struct WorldOwner(Rc<()>);

impl WorldOwner {
    /// Allocates a fresh world identity.
    pub fn new() -> (r: WorldOwner) {
        WorldOwner(Rc::new(()))
    }

    /// Whether two handles were issued for the same world. Identity is the allocation
    /// address, so nothing is stated about the answer.
    pub fn same(&self, other: &WorldOwner) -> (r: bool) {
        crate::schedule::owner::rc_ptr_eq(&self.0, &other.0)
    }
}

} // verus!
