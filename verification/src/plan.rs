//! The form in which the engine runs a definition: targets resolved to
//! positions, conditions parsed.

use crate::condition::Condition;
use crate::model::RetryPolicy;
use vstd::prelude::*;

verus! {

/// Where a transition leads.
#[derive(Clone, Copy, Debug, PartialEq, Eq, Structural)]
pub enum Target {
    /// The run completes.
    Terminal,
    /// The step at this position.
    Step(usize),
}

/// A transition, ready to be judged.
#[derive(Debug, PartialEq, Eq)]
pub struct Arm {
    pub target: Target,
    /// None fires always.
    pub guard: Option<Condition>,
}

/// A step, ready to be run.
#[derive(Debug, PartialEq, Eq)]
pub struct PlanStep {
    pub arms: Vec<Arm>,
    pub retry: Option<RetryPolicy>,
}

/// A definition, ready to be run.
#[derive(Debug, PartialEq, Eq)]
pub struct Plan {
    pub steps: Vec<PlanStep>,
    /// The one step that no transition leads to.
    pub entry: usize,
    pub step_budget: Option<u64>,
}

/// The targets of a step's transitions, in order.
pub open spec fn row(step: PlanStep) -> Seq<Target> {
    Seq::new(step.arms@.len(), |k: int| step.arms@[k].target)
}

/// The step graph: for each step, where its transitions lead.
pub open spec fn graph(steps: Seq<PlanStep>) -> Seq<Seq<Target>> {
    Seq::new(steps.len(), |i: int| row(steps[i]))
}

/// Whether every transition leads to a step of the graph or to the end.
pub open spec fn targets_in_range(g: Seq<Seq<Target>>) -> bool {
    forall|i: int, k: int|
        0 <= i < g.len() && 0 <= k < g[i].len() ==> match #[trigger] g[i][k] {
            Target::Terminal => true,
            Target::Step(j) => j < g.len(),
        }
}

impl Plan {
    /// The plan's own consistency: its entry and its targets are steps of it.
    pub open spec fn wf(&self) -> bool {
        &&& self.entry < self.steps@.len()
        &&& targets_in_range(graph(self.steps@))
    }
}

} // verus!
