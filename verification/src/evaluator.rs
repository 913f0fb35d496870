//! The transition evaluator: which of a step's transitions fires.

use crate::condition::{holds, scope};
use crate::plan::{Arm, PlanStep, Target};
use crate::value::{Context, Datum};
use vstd::prelude::*;

verus! {

/// What follows a step that has succeeded.
#[derive(Clone, Copy, Debug, PartialEq, Eq, Structural)]
pub enum Evaluation {
    /// The step at this position is next.
    Next(usize),
    /// The run is complete.
    Terminal,
    /// No transition fired.
    NoMatch,
}

/// Whether a transition fires: it has no condition, or its condition holds.
pub open spec fn fires(arm: Arm, env: Map<Seq<char>, Datum>) -> bool {
    match arm.guard {
        None => true,
        Some(c) => holds(c@, env),
    }
}

/// What the first transition at or after `from` that fires leads to.
pub open spec fn select(arms: Seq<Arm>, env: Map<Seq<char>, Datum>, from: int) -> Evaluation
    decreases arms.len() - from,
{
    if from < 0 || from >= arms.len() {
        Evaluation::NoMatch
    } else if fires(arms[from], env) {
        match arms[from].target {
            Target::Terminal => Evaluation::Terminal,
            Target::Step(j) => Evaluation::Next(j),
        }
    } else {
        select(arms, env, from + 1)
    }
}

/// What follows a step whose outcome had the fields `fields`, in a run whose
/// context is `context`: the fields lie over the context.
pub open spec fn evaluation(
    step: PlanStep,
    fields: Map<Seq<char>, Datum>,
    context: Map<Seq<char>, Datum>,
) -> Evaluation {
    select(step.arms@, scope(fields, context), 0)
}

/// No transition is selected exactly when none fires.
pub proof fn lemma_no_match(arms: Seq<Arm>, env: Map<Seq<char>, Datum>, from: int)
    requires
        0 <= from,
    ensures
        select(arms, env, from) is NoMatch <==> forall|k: int|
            from <= k < arms.len() ==> !fires(#[trigger] arms[k], env),
    decreases arms.len() - from,
{
    if from < arms.len() {
        lemma_no_match(arms, env, from + 1);
        if !fires(arms[from], env) {
            assert forall|k: int| from <= k < arms.len() && (forall|m: int|
                from + 1 <= m < arms.len() ==> !fires(#[trigger] arms[m], env)) implies !fires(
                #[trigger] arms[k],
                env,
            ) by {}
        }
    }
}

/// The transition that is selected is the first that fires.
pub proof fn lemma_first_match(arms: Seq<Arm>, env: Map<Seq<char>, Datum>, from: int, k: int)
    requires
        0 <= from <= k < arms.len(),
        fires(arms[k], env),
        forall|m: int| from <= m < k ==> !fires(#[trigger] arms[m], env),
    ensures
        select(arms, env, from) == match arms[k].target {
            Target::Terminal => Evaluation::Terminal,
            Target::Step(j) => Evaluation::Next(j),
        },
    decreases k - from,
{
    if from < k {
        lemma_first_match(arms, env, from + 1, k);
    }
}

/// To lay the fields over the context and judge is to merge the fields into
/// the context and judge with no fields.
pub proof fn lemma_merge_then_evaluate(
    step: PlanStep,
    fields: Map<Seq<char>, Datum>,
    context: Map<Seq<char>, Datum>,
)
    ensures
        evaluation(step, fields, context) == evaluation(
            step,
            Map::empty(),
            context.union_prefer_right(fields),
        ),
{
    let merged = context.union_prefer_right(fields);
    assert(scope(Map::empty(), merged) =~= merged);
}

/// A step that is selected is one that some transition leads to.
pub proof fn lemma_selected_is_target(arms: Seq<Arm>, env: Map<Seq<char>, Datum>, from: int)
    requires
        0 <= from,
    ensures
        select(arms, env, from) matches Evaluation::Next(j) ==> exists|k: int|
            0 <= k < arms.len() && (#[trigger] arms[k]).target == Target::Step(j),
    decreases arms.len() - from,
{
    if from < arms.len() && !fires(arms[from], env) {
        lemma_selected_is_target(arms, env, from + 1);
    }
}

/// Judges a step's transitions in their order; the first whose condition
/// holds, or that has none, fires.
pub fn evaluate(step: &PlanStep, fields: &Context, context: &Context) -> (r: Evaluation)
    ensures
        r == evaluation(*step, fields@, context@),
{
    let ghost env = scope(fields@, context@);
    let mut k: usize = 0;
    while k < step.arms.len()
        invariant
            k <= step.arms@.len(),
            env == scope(fields@, context@),
            select(step.arms@, env, 0) == select(step.arms@, env, k as int),
        decreases step.arms@.len() - k,
    {
        let arm = &step.arms[k];
        let fired = match &arm.guard {
            None => true,
            Some(c) => c.holds(fields, context),
        };
        if fired {
            return match arm.target {
                Target::Terminal => Evaluation::Terminal,
                Target::Step(j) => Evaluation::Next(j),
            };
        }
        k += 1;
    }
    Evaluation::NoMatch
}

} // verus!
