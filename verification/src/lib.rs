//! A workflow orchestration engine: definitions are validated and stored,
//! runs are instantiated from them and driven, one dispatch at a time,
//! through their state machines.

pub mod condition;
pub mod engine;
pub mod error;
pub mod evaluator;
pub mod graph;
pub mod lexer;
pub mod model;
pub mod plan;
pub mod registry;
pub mod retry;
pub mod run;
pub mod store;
pub mod validate;
pub mod value;

pub use condition::{parse_condition, Comparison, Condition, Formula, Operand, Term};
pub use engine::{Engine, EngineConfig};
pub use error::{EngineError, ValidationError};
pub use evaluator::{evaluate, Evaluation};
pub use model::{
    is_terminal_marker, RetryPolicy, Step, StepState, Transition, WorkflowDefinition,
    WorkflowState, TERMINAL,
};
pub use plan::{Arm, Plan, PlanStep, Target};
pub use registry::Registry;
pub use run::{Action, Attempt, Event, Followup, Outcome, Run, RunSnapshot, StepSnapshot};
pub use store::{DefinitionStore, Published};
pub use validate::{find_step, validate};
pub use value::{Binding, Context, Datum, Scalar};
