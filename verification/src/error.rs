//! What can go wrong, and how it is put into words.

use vstd::prelude::*;
use vstd::string::*;

verus! {

/// Why a definition is not accepted.
#[derive(Clone, Copy, Debug, PartialEq, Eq, Structural)]
pub enum ValidationError {
    /// The submission carries a version; versions are assigned on publication.
    VersionSupplied,
    /// A step's id is the terminal marker.
    ReservedStepId,
    /// Two steps have the same id.
    DuplicateStepId,
    /// A transition names a step that the definition does not have.
    UnknownTarget,
    /// A transition without a condition stands before the last place.
    DefaultNotLast,
    /// A condition is not well formed.
    MalformedCondition,
    /// Every step is the target of some transition.
    NoEntryPoint,
    /// More than one step is the target of no transition.
    MultipleEntryPoints,
    /// No path leads from the entry point to the terminal marker.
    NoTerminalPath,
}

/// The engine's errors. The last three are also the causes for which a run fails.
#[derive(Clone, Debug, PartialEq, Eq)]
pub enum EngineError {
    /// No definition is stored under this id (and version).
    UnknownWorkflow(String),
    /// A step's outcome matched no transition, and there was no default.
    InvalidTransition,
    /// The definition was rejected.
    Validation(ValidationError),
    /// No run has this id.
    UnknownRun(u64),
    /// A step failed or timed out, and no attempts were left.
    Capability(String),
    /// The run dispatched as many steps as it is allowed.
    BudgetExceeded,
    /// The update does not fit the state that the store holds.
    Conflict,
    /// No further version can be assigned under this id.
    VersionsExhausted,
}

impl ValidationError {
    /// The words for this error.
    pub open spec fn text(self) -> Seq<char> {
        match self {
            ValidationError::VersionSupplied => "version is assigned on publication"@,
            ValidationError::ReservedStepId => "step id is reserved"@,
            ValidationError::DuplicateStepId => "duplicate step id"@,
            ValidationError::UnknownTarget => "transition to unknown step"@,
            ValidationError::DefaultNotLast => "default transition is not last"@,
            ValidationError::MalformedCondition => "malformed condition"@,
            ValidationError::NoEntryPoint => "no entry point"@,
            ValidationError::MultipleEntryPoints => "more than one entry point"@,
            ValidationError::NoTerminalPath => "no path to termination"@,
        }
    }

    /// The words for this error.
    pub fn message(&self) -> (r: String)
        ensures
            r@ == self.text(),
    {
        match self {
            ValidationError::VersionSupplied => "version is assigned on publication".to_owned(),
            ValidationError::ReservedStepId => "step id is reserved".to_owned(),
            ValidationError::DuplicateStepId => "duplicate step id".to_owned(),
            ValidationError::UnknownTarget => "transition to unknown step".to_owned(),
            ValidationError::DefaultNotLast => "default transition is not last".to_owned(),
            ValidationError::MalformedCondition => "malformed condition".to_owned(),
            ValidationError::NoEntryPoint => "no entry point".to_owned(),
            ValidationError::MultipleEntryPoints => "more than one entry point".to_owned(),
            ValidationError::NoTerminalPath => "no path to termination".to_owned(),
        }
    }
}

impl EngineError {
    /// The words for this error. A capability's failure is put in its own words.
    pub open spec fn text(self) -> Seq<char> {
        match self {
            EngineError::UnknownWorkflow(id) => "unknown workflow "@ + id@,
            EngineError::InvalidTransition => "no transition matched"@,
            EngineError::Validation(e) => "invalid definition: "@ + e.text(),
            EngineError::UnknownRun(_) => "unknown run"@,
            EngineError::Capability(cause) => cause@,
            EngineError::BudgetExceeded => "step budget exceeded"@,
            EngineError::Conflict => "conflicting update"@,
            EngineError::VersionsExhausted => "no version left"@,
        }
    }

    /// The words for this error.
    pub fn message(&self) -> (r: String)
        ensures
            r@ == self.text(),
    {
        match self {
            EngineError::UnknownWorkflow(id) => {
                let mut r = "unknown workflow ".to_owned();
                r.append(id.as_str());
                r
            },
            EngineError::InvalidTransition => "no transition matched".to_owned(),
            EngineError::Validation(e) => {
                let mut r = "invalid definition: ".to_owned();
                r.append(e.message().as_str());
                r
            },
            EngineError::UnknownRun(_) => "unknown run".to_owned(),
            EngineError::Capability(cause) => cause.clone(),
            EngineError::BudgetExceeded => "step budget exceeded".to_owned(),
            EngineError::Conflict => "conflicting update".to_owned(),
            EngineError::VersionsExhausted => "no version left".to_owned(),
        }
    }
}

} // verus!
