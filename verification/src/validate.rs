//! What makes a definition valid, and the check that decides it.

use crate::condition::{parse, parse_condition, Condition, Formula};
use crate::error::ValidationError;
use crate::graph::{can_finish, find_entry, finishing, is_entry, many_entries, no_entry};
use crate::model::{is_terminal_marker, terminal_marker, Step, WorkflowDefinition};
use crate::plan::{graph, row, targets_in_range, Arm, Plan, PlanStep, Target};
use vstd::prelude::*;

verus! {

/// Step `i` has the terminal marker for its id.
pub open spec fn reserved_at(def: WorkflowDefinition, i: int) -> bool {
    def.id_of(i) == terminal_marker()
}

/// Some step has the terminal marker for its id.
pub open spec fn reserved_id(def: WorkflowDefinition) -> bool {
    exists|i: int| 0 <= i < def.steps@.len() && #[trigger] reserved_at(def, i)
}

/// Steps `i` and `j` have the same id.
pub open spec fn duplicate_at(def: WorkflowDefinition, i: int, j: int) -> bool {
    def.id_of(i) == def.id_of(j)
}

/// Two steps have the same id.
pub open spec fn duplicate_id(def: WorkflowDefinition) -> bool {
    exists|i: int, j: int| 0 <= i < j < def.steps@.len() && #[trigger] duplicate_at(def, i, j)
}

/// Step `j` has the id `to`.
pub open spec fn named_at(def: WorkflowDefinition, j: int, to: Seq<char>) -> bool {
    def.id_of(j) == to
}

/// Some step has the id `to`.
pub open spec fn names_step(def: WorkflowDefinition, to: Seq<char>) -> bool {
    exists|j: int| 0 <= j < def.steps@.len() && #[trigger] named_at(def, j, to)
}

/// Transition `k` of step `i` leads neither to a step nor to the end.
pub open spec fn dangling_at(def: WorkflowDefinition, i: int, k: int) -> bool {
    let to = def.arms_of(i)[k].to@;
    to != terminal_marker() && !names_step(def, to)
}

pub open spec fn step_dangling(def: WorkflowDefinition, i: int) -> bool {
    exists|k: int| 0 <= k < def.arms_of(i).len() && #[trigger] dangling_at(def, i, k)
}

/// Some transition leads neither to a step nor to the end.
pub open spec fn dangling(def: WorkflowDefinition) -> bool {
    exists|i: int| 0 <= i < def.steps@.len() && #[trigger] step_dangling(def, i)
}

/// Transition `k` of step `i` has no condition and is not the last.
pub open spec fn early_default_at(def: WorkflowDefinition, i: int, k: int) -> bool {
    def.arms_of(i)[k].condition is None && k + 1 < def.arms_of(i).len()
}

pub open spec fn step_early_default(def: WorkflowDefinition, i: int) -> bool {
    exists|k: int| 0 <= k < def.arms_of(i).len() && #[trigger] early_default_at(def, i, k)
}

/// Some transition without a condition is not the last of its step.
pub open spec fn early_default(def: WorkflowDefinition) -> bool {
    exists|i: int| 0 <= i < def.steps@.len() && #[trigger] step_early_default(def, i)
}

/// The formula of transition `k` of step `i`: none where it has no
/// condition, and none where its condition does not parse.
pub open spec fn guard_of(def: WorkflowDefinition, i: int, k: int) -> Option<Formula> {
    match def.arms_of(i)[k].condition {
        Some(text) => parse(text@),
        None => None,
    }
}

/// Transition `k` of step `i` has a condition that does not parse.
pub open spec fn malformed_at(def: WorkflowDefinition, i: int, k: int) -> bool {
    def.arms_of(i)[k].condition is Some && guard_of(def, i, k) is None
}

pub open spec fn step_malformed(def: WorkflowDefinition, i: int) -> bool {
    exists|k: int| 0 <= k < def.arms_of(i).len() && #[trigger] malformed_at(def, i, k)
}

/// Some condition does not parse.
pub open spec fn malformed(def: WorkflowDefinition) -> bool {
    exists|i: int| 0 <= i < def.steps@.len() && #[trigger] step_malformed(def, i)
}

/// The position of the step whose id is `to`.
pub open spec fn index_of(def: WorkflowDefinition, to: Seq<char>) -> int {
    choose|j: int| 0 <= j < def.steps@.len() && #[trigger] named_at(def, j, to)
}

/// Where transition `k` of step `i` leads.
pub open spec fn target_of(def: WorkflowDefinition, i: int, k: int) -> Target {
    let to = def.arms_of(i)[k].to@;
    if to == terminal_marker() {
        Target::Terminal
    } else {
        Target::Step(index_of(def, to) as usize)
    }
}

/// The step graph of a definition.
pub open spec fn def_graph(def: WorkflowDefinition) -> Seq<Seq<Target>> {
    Seq::new(
        def.steps@.len(),
        |i: int| Seq::new(def.arms_of(i).len(), |k: int| target_of(def, i, k)),
    )
}

/// The entry point of a graph that has one.
pub open spec fn entry_of(g: Seq<Seq<Target>>) -> int {
    choose|j: int| is_entry(g, j)
}

/// What is wrong with a definition, if anything is. Where several things
/// are, the first in this order is named.
pub open spec fn check(def: WorkflowDefinition) -> Option<ValidationError> {
    if def.version != 0 {
        Some(ValidationError::VersionSupplied)
    } else if reserved_id(def) {
        Some(ValidationError::ReservedStepId)
    } else if duplicate_id(def) {
        Some(ValidationError::DuplicateStepId)
    } else if dangling(def) {
        Some(ValidationError::UnknownTarget)
    } else if early_default(def) {
        Some(ValidationError::DefaultNotLast)
    } else if malformed(def) {
        Some(ValidationError::MalformedCondition)
    } else if no_entry(def_graph(def)) {
        Some(ValidationError::NoEntryPoint)
    } else if many_entries(def_graph(def)) {
        Some(ValidationError::MultipleEntryPoints)
    } else if !can_finish(def_graph(def), entry_of(def_graph(def))) {
        Some(ValidationError::NoTerminalPath)
    } else {
        None
    }
}

/// The formula of a parsed guard.
pub open spec fn guard_view(guard: Option<Condition>) -> Option<Formula> {
    match guard {
        Some(c) => Some(c@),
        None => None,
    }
}

/// Whether `step` is step `i` of `def`, made ready to run.
pub open spec fn step_compiled(step: PlanStep, def: WorkflowDefinition, i: int) -> bool {
    &&& step.arms@.len() == def.arms_of(i).len()
    &&& step.retry == def.steps@[i].retry
    &&& forall|k: int|
        0 <= k < step.arms@.len() ==> (#[trigger] step.arms@[k]).target == target_of(def, i, k)
            && guard_view(step.arms@[k].guard) == guard_of(def, i, k)
}

/// Whether `plan` is `def`, made ready to run.
pub open spec fn compiled(plan: Plan, def: WorkflowDefinition) -> bool {
    &&& plan.steps@.len() == def.steps@.len()
    &&& plan.step_budget == def.step_budget
    &&& plan.entry == entry_of(def_graph(def))
    &&& forall|i: int|
        0 <= i < plan.steps@.len() ==> step_compiled(#[trigger] plan.steps@[i], def, i)
}

/// A definition with a transition that leads to no step of it is not valid.
pub proof fn lemma_dangling_is_rejected(def: WorkflowDefinition)
    requires
        dangling(def),
    ensures
        check(def) is Some,
{
}

/// Where no two steps share an id, a step's id is found at its own position.
proof fn lemma_index_of(def: WorkflowDefinition, to: Seq<char>, j: int)
    requires
        !duplicate_id(def),
        0 <= j < def.steps@.len(),
        def.id_of(j) == to,
    ensures
        index_of(def, to) == j,
{
    assert(named_at(def, j, to));
    let c = index_of(def, to);
    if c < j {
        assert(duplicate_at(def, c, j));
    } else if j < c {
        assert(duplicate_at(def, j, c));
    }
}

/// A graph without two entry points has its entry point where one is found.
proof fn lemma_entry_of(g: Seq<Seq<Target>>, e: int)
    requires
        is_entry(g, e),
        !many_entries(g),
    ensures
        entry_of(g) == e,
{
    let c = entry_of(g);
    if c < e {
        assert(!crate::graph::has_incoming(g, c) && !crate::graph::has_incoming(g, e));
    } else if e < c {
        assert(!crate::graph::has_incoming(g, e) && !crate::graph::has_incoming(g, c));
    }
}

/// The position of the first step whose id is `id`.
pub fn find_step(steps: &Vec<Step>, id: &str) -> (r: Option<usize>)
    ensures
        match r {
            Some(j) => j < steps@.len() && steps@[j as int].id@ == id@ && forall|m: int|
                0 <= m < j ==> (#[trigger] steps@[m]).id@ != id@,
            None => forall|m: int| 0 <= m < steps@.len() ==> (#[trigger] steps@[m]).id@ != id@,
        },
{
    let mut j: usize = 0;
    while j < steps.len()
        invariant
            j <= steps@.len(),
            forall|m: int| 0 <= m < j ==> (#[trigger] steps@[m]).id@ != id@,
        decreases steps@.len() - j,
    {
        if *steps[j].id.as_str() == *id {
            return Some(j);
        }
        j += 1;
    }
    None
}

fn has_reserved_id(def: &WorkflowDefinition) -> (r: bool)
    ensures
        r == reserved_id(*def),
{
    let mut i: usize = 0;
    while i < def.steps.len()
        invariant
            i <= def.steps@.len(),
            forall|m: int| 0 <= m < i ==> !#[trigger] reserved_at(*def, m),
        decreases def.steps@.len() - i,
    {
        if is_terminal_marker(def.steps[i].id.as_str()) {
            assert(reserved_at(*def, i as int));
            return true;
        }
        i += 1;
    }
    false
}

fn has_duplicate_id(def: &WorkflowDefinition) -> (r: bool)
    ensures
        r == duplicate_id(*def),
{
    let mut j: usize = 0;
    while j < def.steps.len()
        invariant
            j <= def.steps@.len(),
            forall|a: int, b: int| 0 <= a < b < j ==> !#[trigger] duplicate_at(*def, a, b),
        decreases def.steps@.len() - j,
    {
        match find_step(&def.steps, def.steps[j].id.as_str()) {
            Some(i) => {
                if i < j {
                    assert(duplicate_at(*def, i as int, j as int));
                    return true;
                }
                assert forall|a: int| 0 <= a < j implies !#[trigger] duplicate_at(
                    *def,
                    a,
                    j as int,
                ) by {
                    assert(def.steps@[a].id@ != def.steps@[j as int].id@);
                }
            },
            None => {
                assert(def.steps@[j as int].id@ == def.id_of(j as int));
            },
        }
        j += 1;
    }
    false
}

fn has_dangling_in(def: &WorkflowDefinition, i: usize) -> (r: bool)
    requires
        i < def.steps@.len(),
    ensures
        r == step_dangling(*def, i as int),
{
    let step = &def.steps[i];
    let mut k: usize = 0;
    while k < step.transitions.len()
        invariant
            i < def.steps@.len(),
            *step == def.steps@[i as int],
            k <= step.transitions@.len(),
            forall|m: int| 0 <= m < k ==> !#[trigger] dangling_at(*def, i as int, m),
        decreases step.transitions@.len() - k,
    {
        let to = step.transitions[k].to.as_str();
        if !is_terminal_marker(to) {
            match find_step(&def.steps, to) {
                Some(j) => {
                    assert(named_at(*def, j as int, to@));
                },
                None => {
                    assert forall|j: int| 0 <= j < def.steps@.len() implies !#[trigger] named_at(
                        *def,
                        j,
                        to@,
                    ) by {
                        assert(def.steps@[j].id@ != to@);
                    }
                    assert(dangling_at(*def, i as int, k as int));
                    return true;
                },
            }
        }
        k += 1;
    }
    false
}

fn has_dangling(def: &WorkflowDefinition) -> (r: bool)
    ensures
        r == dangling(*def),
{
    let mut i: usize = 0;
    while i < def.steps.len()
        invariant
            i <= def.steps@.len(),
            forall|m: int| 0 <= m < i ==> !#[trigger] step_dangling(*def, m),
        decreases def.steps@.len() - i,
    {
        if has_dangling_in(def, i) {
            return true;
        }
        i += 1;
    }
    false
}

fn has_early_default_in(def: &WorkflowDefinition, i: usize) -> (r: bool)
    requires
        i < def.steps@.len(),
    ensures
        r == step_early_default(*def, i as int),
{
    let step = &def.steps[i];
    let n = step.transitions.len();
    let mut k: usize = 0;
    while k < n
        invariant
            i < def.steps@.len(),
            *step == def.steps@[i as int],
            n == step.transitions@.len(),
            k <= n,
            forall|m: int| 0 <= m < k ==> !#[trigger] early_default_at(*def, i as int, m),
        decreases n - k,
    {
        if step.transitions[k].condition.is_none() && k + 1 < n {
            assert(early_default_at(*def, i as int, k as int));
            return true;
        }
        k += 1;
    }
    false
}

fn has_early_default(def: &WorkflowDefinition) -> (r: bool)
    ensures
        r == early_default(*def),
{
    let mut i: usize = 0;
    while i < def.steps.len()
        invariant
            i <= def.steps@.len(),
            forall|m: int| 0 <= m < i ==> !#[trigger] step_early_default(*def, m),
        decreases def.steps@.len() - i,
    {
        if has_early_default_in(def, i) {
            return true;
        }
        i += 1;
    }
    false
}

/// Makes step `i` ready to run: resolves its targets and parses its conditions.
fn compile_step(def: &WorkflowDefinition, i: usize) -> (r: Option<PlanStep>)
    requires
        i < def.steps@.len(),
        !duplicate_id(*def),
        !step_dangling(*def, i as int),
    ensures
        match r {
            Some(step) => step_compiled(step, *def, i as int) && !step_malformed(*def, i as int)
                && forall|k: int|
                0 <= k < step.arms@.len() ==> match (#[trigger] step.arms@[k]).target {
                    Target::Terminal => true,
                    Target::Step(j) => j < def.steps@.len(),
                },
            None => step_malformed(*def, i as int),
        },
{
    let step = &def.steps[i];
    let mut arms: Vec<Arm> = Vec::new();
    let mut k: usize = 0;
    while k < step.transitions.len()
        invariant
            i < def.steps@.len(),
            *step == def.steps@[i as int],
            !duplicate_id(*def),
            !step_dangling(*def, i as int),
            k <= step.transitions@.len(),
            arms@.len() == k,
            forall|m: int| 0 <= m < k ==> !#[trigger] malformed_at(*def, i as int, m),
            forall|m: int|
                0 <= m < k ==> (#[trigger] arms@[m]).target == target_of(*def, i as int, m)
                    && guard_view(arms@[m].guard) == guard_of(*def, i as int, m),
            forall|m: int|
                0 <= m < k ==> match (#[trigger] arms@[m]).target {
                    Target::Terminal => true,
                    Target::Step(j) => j < def.steps@.len(),
                },
        decreases step.transitions@.len() - k,
    {
        let transition = &step.transitions[k];
        let to = transition.to.as_str();
        let mut target = Target::Terminal;
        if !is_terminal_marker(to) {
            match find_step(&def.steps, to) {
                Some(j) => {
                    proof {
                        lemma_index_of(*def, to@, j as int);
                    }
                    target = Target::Step(j);
                },
                None => {
                    proof {
                        assert forall|j: int| 0 <= j < def.steps@.len() implies !#[trigger] named_at(
                            *def,
                            j,
                            to@,
                        ) by {
                            assert(def.steps@[j].id@ != to@);
                        }
                        assert(dangling_at(*def, i as int, k as int));
                    }
                },
            }
        }
        let guard = match &transition.condition {
            None => None,
            Some(text) => match parse_condition(text.as_str()) {
                Some(c) => Some(c),
                None => {
                    assert(malformed_at(*def, i as int, k as int));
                    return None;
                },
            },
        };
        arms.push(Arm { target, guard });
        k += 1;
    }
    Some(PlanStep { arms, retry: step.retry })
}

/// Makes every step ready to run.
fn compile_steps(def: &WorkflowDefinition) -> (r: Option<Vec<PlanStep>>)
    requires
        !duplicate_id(*def),
        !dangling(*def),
    ensures
        match r {
            Some(steps) => !malformed(*def) && steps@.len() == def.steps@.len() && (forall|
                i: int,
            |
                0 <= i < steps@.len() ==> step_compiled(#[trigger] steps@[i], *def, i))
                && graph(steps@) == def_graph(*def) && targets_in_range(graph(steps@)),
            None => malformed(*def),
        },
{
    let mut steps: Vec<PlanStep> = Vec::new();
    let mut i: usize = 0;
    while i < def.steps.len()
        invariant
            !duplicate_id(*def),
            !dangling(*def),
            i <= def.steps@.len(),
            steps@.len() == i,
            forall|m: int| 0 <= m < i ==> !#[trigger] step_malformed(*def, m),
            forall|m: int| 0 <= m < i ==> step_compiled(#[trigger] steps@[m], *def, m),
            forall|m: int, k: int|
                0 <= m < i && 0 <= k < steps@[m].arms@.len() ==> match (
                #[trigger] steps@[m].arms@[k]).target {
                    Target::Terminal => true,
                    Target::Step(j) => j < def.steps@.len(),
                },
        decreases def.steps@.len() - i,
    {
        assert(!step_dangling(*def, i as int));
        match compile_step(def, i) {
            Some(step) => {
                steps.push(step);
            },
            None => {
                return None;
            },
        }
        i += 1;
    }
    proof {
        let g = graph(steps@);
        let h = def_graph(*def);
        assert forall|m: int| 0 <= m < g.len() implies g[m] =~= h[m] by {
            assert(step_compiled(steps@[m], *def, m));
            assert forall|k: int| 0 <= k < g[m].len() implies g[m][k] == h[m][k] by {
                assert(steps@[m].arms@[k].target == target_of(*def, m, k));
            }
        }
        assert(g =~= h);
        assert forall|m: int, k: int| 0 <= m < g.len() && 0 <= k < g[m].len() implies match
            #[trigger] g[m][k] {
            Target::Terminal => true,
            Target::Step(j) => j < g.len(),
        } by {
            assert(g[m][k] == steps@[m].arms@[k].target);
        }
    }
    Some(steps)
}

/// Checks a definition and makes it ready to run.
///
/// The definition is valid when it carries no version, its step ids are
/// distinct and none is the terminal marker, every transition leads to a
/// step or to the end, a transition without a condition is the last of its
/// step, every condition parses, exactly one step is the target of no
/// transition, and from that step a path leads to the end.
pub fn validate(def: &WorkflowDefinition) -> (r: Result<Plan, ValidationError>)
    ensures
        match r {
            Ok(plan) => check(*def) is None && compiled(plan, *def) && plan.wf(),
            Err(e) => check(*def) == Some(e),
        },
{
    if def.version != 0 {
        return Err(ValidationError::VersionSupplied);
    }
    if has_reserved_id(def) {
        return Err(ValidationError::ReservedStepId);
    }
    if has_duplicate_id(def) {
        return Err(ValidationError::DuplicateStepId);
    }
    if has_dangling(def) {
        return Err(ValidationError::UnknownTarget);
    }
    if has_early_default(def) {
        return Err(ValidationError::DefaultNotLast);
    }
    let steps = match compile_steps(def) {
        Some(steps) => steps,
        None => {
            return Err(ValidationError::MalformedCondition);
        },
    };
    let entry = match find_entry(&steps) {
        Ok(entry) => entry,
        Err(e) => {
            return Err(e);
        },
    };
    proof {
        lemma_entry_of(def_graph(*def), entry as int);
    }
    let marks = finishing(&steps);
    if !marks[entry] {
        return Err(ValidationError::NoTerminalPath);
    }
    Ok(Plan { steps, entry, step_budget: def.step_budget })
}

} // verus!
