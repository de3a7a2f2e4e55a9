//! Schedule construction and runtime control failures.
use vstd::prelude::*;

use crate::operation::StageOperation;
use crate::schedule::system::FlushMode;
use crate::text::{cat2, cat3, cat5, cat7, join, joined, string_views};
use crate::world::WorldError;

verus! {

/// Schedule construction failure before first execution.
#[non_exhaustive]
#[derive(Clone, Debug, Eq, PartialEq)]
pub enum BuildError {
    PendingCommands,
    WorldRunning,
    WorldMutationPoisoned,
    LeaseMismatch,
    LiveLeaseAlreadyAttached,
    UnknownStage { label: String },
    UnknownSystem { label: String },
    UnknownSystemSet { label: String },
    DuplicateSystemSet { label: String },
    DuplicateSystemLabel { label: String },
    SystemInitialization { system: String, detail: String },
    CrossOperationEdge { from: String, to: String },
    CrossStageSystemEdge { from: String, to: String },
    MissingRequiredResource { name: String },
    UnregisteredEventRole { system: String, event: String },
    EventOperationMismatch {
        system: String,
        event: String,
        event_operation: StageOperation,
        system_operation: StageOperation,
    },
    MissingEventProducer { system: String, event: String },
    UnreachableEventProducer { producer: String, consumer: String, event: String },
    SelfEdge { label: String },
    Cycle { path: Vec<String> },
    FixedUpdateWithoutConfig,
    FixedConfigWithoutFixedUpdate,
    StageOperationMismatch { label: String },
    InvalidStageFlushMode { label: String, mode: FlushMode },
    InvalidSystemFlushMode { label: String, mode: FlushMode },
    WorldBuild(WorldError),
}

impl From<WorldError> for BuildError {
    fn from(value: WorldError) -> (r: BuildError) {
        BuildError::WorldBuild(value)
    }
}

impl vstd::std_specs::convert::FromSpecImpl<WorldError> for BuildError {
    open spec fn obeys_from_spec() -> bool {
        true
    }

    open spec fn from_spec(v: WorldError) -> BuildError {
        BuildError::WorldBuild(v)
    }
}

/// `Debug` name of a stage operation.
pub open spec fn operation_name(op: StageOperation) -> Seq<char> {
    match op {
        StageOperation::Update => "Update"@,
        StageOperation::Render => "Render"@,
    }
}

/// `Debug` name of a flush mode.
pub open spec fn flush_mode_name(mode: FlushMode) -> Seq<char> {
    match mode {
        FlushMode::Final => "Final"@,
        FlushMode::Stage => "Stage"@,
        FlushMode::AfterSystem => "AfterSystem"@,
    }
}

/// `'label'`, quoted.
pub open spec fn quoted(label: Seq<char>) -> Seq<char> {
    "'"@ + label + "'"@
}

/// Human-readable description of a build failure.
pub open spec fn build_error_message(e: BuildError) -> Seq<char> {
    match e {
        BuildError::PendingCommands => "world has pending commands"@,
        BuildError::WorldRunning => "world is running"@,
        BuildError::WorldMutationPoisoned => "world mutation is poisoned"@,
        BuildError::LeaseMismatch => "world and schedule execution lease mismatch"@,
        BuildError::LiveLeaseAlreadyAttached => "world already has a live compiled schedule lease"@,
        BuildError::UnknownStage { label } => "unknown stage '"@ + label@ + "'"@,
        BuildError::UnknownSystem { label } => "unknown system '"@ + label@ + "'"@,
        BuildError::UnknownSystemSet { label } => "unknown system set '"@ + label@ + "'"@,
        BuildError::DuplicateSystemSet { label } => "duplicate system set '"@ + label@ + "'"@,
        BuildError::DuplicateSystemLabel { label } => "duplicate system label '"@ + label@ + "'"@,
        BuildError::SystemInitialization { system, detail } => "system '"@ + system@
            + "' initialization failed: "@ + detail@,
        BuildError::CrossStageSystemEdge { from, to } => "cross-stage system edge: "@ + from@ + " -> "@
            + to@,
        BuildError::MissingRequiredResource { name } => "missing required resource '"@ + name@ + "'"@,
        BuildError::UnregisteredEventRole { system, event } => "system '"@ + system@
            + "' declares unregistered event role '"@ + event@ + "'"@,
        BuildError::EventOperationMismatch { system, event, event_operation, system_operation } =>
            "system '"@ + system@ + "' runs in "@ + operation_name(system_operation) + " but event '"@
            + event@ + "' belongs to "@ + operation_name(event_operation),
        BuildError::MissingEventProducer { system, event } => "event consumer '"@ + system@
            + "' has no producer for '"@ + event@ + "'"@,
        BuildError::UnreachableEventProducer { producer, consumer, event } => "event producer '"@
            + producer@ + "' is not ordered before consumer '"@ + consumer@ + "' for '"@ + event@ + "'"@,
        BuildError::CrossOperationEdge { from, to } => "ordering edge crosses operations: "@ + from@
            + " -> "@ + to@,
        BuildError::SelfEdge { label } => "system cannot depend on itself: "@ + label@,
        BuildError::Cycle { path } => "schedule cycle: "@ + joined(string_views(path@), " -> "@),
        BuildError::FixedUpdateWithoutConfig => "FixedUpdate systems require fixed configuration"@,
        BuildError::FixedConfigWithoutFixedUpdate => "fixed configuration requires a FixedUpdate stage"@,
        BuildError::StageOperationMismatch { label } => "stage operation mismatch for '"@ + label@
            + "'"@,
        BuildError::InvalidStageFlushMode { label, mode } => "invalid "@ + flush_mode_name(mode)
            + " flush mode for stage '"@ + label@ + "'"@,
        BuildError::InvalidSystemFlushMode { label, mode } => "invalid "@ + flush_mode_name(mode)
            + " flush mode for system '"@ + label@ + "'"@,
        BuildError::WorldBuild(error) => "world build failed: "@ + error.message(),
    }
}

impl BuildError {
    /// Human-readable description of the failure.
    pub fn to_string(&self) -> (r: String)
        ensures
            r@ == build_error_message(*self),
    {
        match self {
            BuildError::PendingCommands => "world has pending commands".to_owned(),
            BuildError::WorldRunning => "world is running".to_owned(),
            BuildError::WorldMutationPoisoned => "world mutation is poisoned".to_owned(),
            BuildError::LeaseMismatch => "world and schedule execution lease mismatch".to_owned(),
            BuildError::LiveLeaseAlreadyAttached => "world already has a live compiled schedule lease".to_owned(),
            BuildError::UnknownStage { label } => cat3("unknown stage '", label.as_str(), "'"),
            BuildError::UnknownSystem { label } => cat3("unknown system '", label.as_str(), "'"),
            BuildError::UnknownSystemSet { label } => cat3("unknown system set '", label.as_str(), "'"),
            BuildError::DuplicateSystemSet { label } => cat3("duplicate system set '", label.as_str(), "'"),
            BuildError::DuplicateSystemLabel { label } => cat3(
                "duplicate system label '",
                label.as_str(),
                "'",
            ),
            BuildError::SystemInitialization { system, detail } => {
                let head = cat3("system '", system.as_str(), "' initialization failed: ");
                cat2(head.as_str(), detail.as_str())
            },
            BuildError::CrossStageSystemEdge { from, to } => {
                let head = cat3("cross-stage system edge: ", from.as_str(), " -> ");
                cat2(head.as_str(), to.as_str())
            },
            BuildError::MissingRequiredResource { name } => cat3(
                "missing required resource '",
                name.as_str(),
                "'",
            ),
            BuildError::UnregisteredEventRole { system, event } => cat5(
                "system '",
                system.as_str(),
                "' declares unregistered event role '",
                event.as_str(),
                "'",
            ),
            BuildError::EventOperationMismatch { system, event, event_operation, system_operation } => {
                let head = cat5("system '", system.as_str(), "' runs in ", system_operation.name(), " but event '");
                let middle = cat3(head.as_str(), event.as_str(), "' belongs to ");
                cat2(middle.as_str(), event_operation.name())
            },
            BuildError::MissingEventProducer { system, event } => cat5(
                "event consumer '",
                system.as_str(),
                "' has no producer for '",
                event.as_str(),
                "'",
            ),
            BuildError::UnreachableEventProducer { producer, consumer, event } => cat7(
                "event producer '",
                producer.as_str(),
                "' is not ordered before consumer '",
                consumer.as_str(),
                "' for '",
                event.as_str(),
                "'",
            ),
            BuildError::CrossOperationEdge { from, to } => {
                let head = cat3("ordering edge crosses operations: ", from.as_str(), " -> ");
                cat2(head.as_str(), to.as_str())
            },
            BuildError::SelfEdge { label } => cat2("system cannot depend on itself: ", label.as_str()),
            BuildError::Cycle { path } => {
                let body = join(path, " -> ");
                cat2("schedule cycle: ", body.as_str())
            },
            BuildError::FixedUpdateWithoutConfig => "FixedUpdate systems require fixed configuration".to_owned(),
            BuildError::FixedConfigWithoutFixedUpdate => "fixed configuration requires a FixedUpdate stage".to_owned(),
            BuildError::StageOperationMismatch { label } => cat3(
                "stage operation mismatch for '",
                label.as_str(),
                "'",
            ),
            BuildError::InvalidStageFlushMode { label, mode } => cat5(
                "invalid ",
                mode.name(),
                " flush mode for stage '",
                label.as_str(),
                "'",
            ),
            BuildError::InvalidSystemFlushMode { label, mode } => cat5(
                "invalid ",
                mode.name(),
                " flush mode for system '",
                label.as_str(),
                "'",
            ),
            BuildError::WorldBuild(error) => {
                let inner = error.to_string();
                cat2("world build failed: ", inner.as_str())
            },
        }
    }
}

/// Runtime schedule control failure.
#[non_exhaustive]
#[derive(Clone, Debug, Eq, PartialEq)]
pub enum ScheduleError {
    OwnerMismatch,
    StaleHandle,
    SystemNotFound { label: String },
    NonUpdateStageInPlan,
    StartupStageInPlan,
    DuplicateStageInPlan,
}

/// Human-readable description of a schedule control failure.
pub open spec fn schedule_error_message(e: ScheduleError) -> Seq<char> {
    match e {
        ScheduleError::OwnerMismatch => "schedule handle belongs to a different schedule"@,
        ScheduleError::StaleHandle => "stale schedule handle"@,
        ScheduleError::SystemNotFound { label } => "system not found: "@ + label@,
        ScheduleError::NonUpdateStageInPlan => "update plans may only name Update stages"@,
        ScheduleError::StartupStageInPlan => "update plans cannot name the Startup stage"@,
        ScheduleError::DuplicateStageInPlan => "update plan names a stage twice"@,
    }
}

impl ScheduleError {
    /// Human-readable description of the failure.
    pub fn to_string(&self) -> (r: String)
        ensures
            r@ == schedule_error_message(*self),
    {
        match self {
            ScheduleError::OwnerMismatch => "schedule handle belongs to a different schedule".to_owned(),
            ScheduleError::StaleHandle => "stale schedule handle".to_owned(),
            ScheduleError::SystemNotFound { label } => cat2("system not found: ", label.as_str()),
            ScheduleError::NonUpdateStageInPlan => "update plans may only name Update stages".to_owned(),
            ScheduleError::StartupStageInPlan => "update plans cannot name the Startup stage".to_owned(),
            ScheduleError::DuplicateStageInPlan => "update plan names a stage twice".to_owned(),
        }
    }
}

} // verus!
