//! The data model: workflow definitions and the states of runs and steps.

use vstd::prelude::*;

verus! {

/// `serde_json::Value`, the opaque payload of a step. The engine carries it
/// to the capability that runs the step and never looks inside.
#[verifier::external_type_specification]
#[verifier::external_body]
pub struct ExJsonValue(serde_json::Value);

/// `serde_json::Value::clone`, which the derived `Clone` of [`Step`] calls:
/// the clone equals the value (`Value` derives `Clone`).
pub assume_specification[ <serde_json::Value as Clone>::clone ](v: &serde_json::Value) -> (res:
    serde_json::Value)
    ensures
        res == *v,
;

/// `serde_json::Value`'s `==`, which the derived `PartialEq` of [`Step`]
/// calls. Nothing is claimed of the answer.
pub assume_specification[ <serde_json::Value as PartialEq>::eq ](
    a: &serde_json::Value,
    b: &serde_json::Value,
) -> (r: bool)
;

/// The transition target that ends a run successfully.
pub const TERMINAL: &'static str = "$end";

/// The characters of the terminal marker.
pub open spec fn terminal_marker() -> Seq<char> {
    TERMINAL@
}

/// Whether `to` is the terminal marker.
pub fn is_terminal_marker(to: &str) -> (r: bool)
    ensures
        r == (to@ == terminal_marker()),
{
    *to == *TERMINAL
}

/// The state of a run.
#[derive(Clone, Copy, Debug, PartialEq, Eq, Structural)]
pub enum WorkflowState {
    Created,
    Pending,
    Running,
    Completed,
    Failed,
    Cancelled,
}

impl WorkflowState {
    /// The states that a run never leaves.
    pub open spec fn terminal(self) -> bool {
        self is Completed || self is Failed || self is Cancelled
    }

    /// Whether the run has ended.
    pub fn is_terminal(self) -> (r: bool)
        ensures
            r == self.terminal(),
    {
        match self {
            WorkflowState::Completed | WorkflowState::Failed | WorkflowState::Cancelled => true,
            _ => false,
        }
    }
}

/// The state of one step within a run.
#[derive(Clone, Copy, Debug, PartialEq, Eq, Structural)]
pub enum StepState {
    Idle,
    Queued,
    Running,
    Succeeded,
    Failed,
    Skipped,
}

impl StepState {
    /// How far along `Idle → Queued → Running → {Succeeded | Failed | Skipped}`
    /// a state lies.
    pub open spec fn rank(self) -> int {
        match self {
            StepState::Idle => 0,
            StepState::Queued => 1,
            StepState::Running => 2,
            _ => 3,
        }
    }

    /// The moves that advance a step along its life cycle.
    pub open spec fn advances_to(self, to: StepState) -> bool {
        ||| self is Idle && to is Queued
        ||| self is Queued && to is Running
        ||| self is Running && (to is Succeeded || to is Failed)
        ||| self is Idle && to is Skipped
    }

    /// The moves that begin a further execution of a step that has finished
    /// one: a retry after a failure, or a transition that leads back to it.
    pub open spec fn reenters(self, to: StepState) -> bool {
        (self is Failed || self is Succeeded) && to is Queued
    }
}

/// How often a failing step is tried, and how long to wait between tries.
#[derive(Clone, Copy, Debug, PartialEq, Eq, Structural)]
pub struct RetryPolicy {
    /// Attempts in all, the first one included.
    pub max_attempts: u32,
    /// The wait after the first failure, in milliseconds.
    pub base_delay_ms: u64,
    /// The longest wait, in milliseconds.
    pub max_delay_ms: u64,
}

/// A directed edge from a step to another step or to the end of the run.
#[derive(Clone, Debug, PartialEq, Eq)]
pub struct Transition {
    /// The id of the target step, or the terminal marker.
    pub to: String,
    /// The condition under which the transition fires; none means always.
    pub condition: Option<String>,
}

/// A unit of work within a definition.
#[derive(Clone, Debug, PartialEq, Eq)]
pub struct Step {
    pub id: String,
    /// Selects the capability that runs the step.
    pub kind: String,
    /// Passed to the capability as it is.
    pub config: serde_json::Value,
    /// In order of priority: the first that matches fires.
    pub transitions: Vec<Transition>,
    /// Overrides the engine's retry policy for this step.
    pub retry: Option<RetryPolicy>,
}

/// A workflow: a graph of steps.
#[derive(Clone, Debug, PartialEq, Eq)]
pub struct WorkflowDefinition {
    /// Stable across versions.
    pub id: String,
    pub name: String,
    /// Assigned by the engine on publication; zero in a submission.
    pub version: i32,
    pub steps: Vec<Step>,
    /// Overrides the engine's ceiling on dispatches per run.
    pub step_budget: Option<u64>,
}

impl WorkflowDefinition {
    /// The id of step `i`.
    pub open spec fn id_of(self, i: int) -> Seq<char> {
        self.steps@[i].id@
    }

    /// The transitions of step `i`.
    pub open spec fn arms_of(self, i: int) -> Seq<Transition> {
        self.steps@[i].transitions@
    }

    /// The definition as it is published under `version`.
    pub open spec fn published_as(self, version: i32) -> WorkflowDefinition {
        WorkflowDefinition { version, ..self }
    }
}

} // verus!
