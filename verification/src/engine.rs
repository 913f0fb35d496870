//! The engine: definitions, runs, and the calls that the outside makes.

use crate::error::EngineError;
use crate::model::{RetryPolicy, WorkflowDefinition, WorkflowState};
use crate::plan::Plan;
use crate::registry::Registry;
use crate::run::{Action, Followup, Outcome, Run, RunSnapshot};
use crate::store::{last_match, DefinitionStore};
use crate::validate::{check, compiled};
use crate::value::Context;
use vstd::prelude::*;
use vstd::string::*;

verus! {

/// What holds for every run unless its definition says otherwise.
#[derive(Clone, Copy, Debug, PartialEq, Eq, Structural)]
pub struct EngineConfig {
    /// The most steps that one run may dispatch.
    pub step_budget: u64,
    /// How failing steps are retried.
    pub retry: RetryPolicy,
}

impl EngineConfig {
    /// At most 10,000 dispatches per run, and the standard retry policy.
    pub fn standard() -> (r: EngineConfig)
        ensures
            r == (EngineConfig {
                step_budget: 10000,
                retry: RetryPolicy { max_attempts: 3, base_delay_ms: 100, max_delay_ms: 10000 },
            }),
    {
        EngineConfig { step_budget: 10000, retry: RetryPolicy::standard() }
    }
}

/// Whether a run in `state` passes `filter`.
pub open spec fn passes(state: WorkflowState, filter: Option<WorkflowState>) -> bool {
    filter is None || filter == Some(state)
}

/// The ids of those of the first `n` runs that pass `filter`, in order.
pub open spec fn selected(runs: Seq<Run>, filter: Option<WorkflowState>, n: int) -> Seq<u64>
    decreases n,
{
    if n <= 0 {
        Seq::empty()
    } else if passes(runs[n - 1].state, filter) {
        selected(runs, filter, n - 1).push((n - 1) as u64)
    } else {
        selected(runs, filter, n - 1)
    }
}

/// An engine in which one run was replaced by a consistent run of the same
/// binding, and nothing else was changed, is consistent.
proof fn lemma_run_replaced(before: Engine, after: Engine, r: int)
    requires
        before.wf(),
        0 <= r < before.runs@.len(),
        after.others_kept(before, r),
        after.runs@[r].same_binding(before.runs@[r]),
        after.runs@[r].wf(before.plan_of(r).steps@.len() as int),
    ensures
        after.wf(),
{
    assert forall|k: int| 0 <= k < after.runs@.len() implies #[trigger] after.run_ok(k) by {
        assert(before.run_ok(k));
    }
}

/// An engine whose store has grown, or stayed, and in which nothing else was
/// changed, is consistent.
proof fn lemma_store_grown(before: Engine, after: Engine)
    requires
        before.wf(),
        after.definitions.wf(),
        after.runs == before.runs,
        after.slots == before.slots,
        before.definitions.entries@.len() <= after.definitions.entries@.len(),
        after.definitions.entries@.take(before.definitions.entries@.len() as int)
            == before.definitions.entries@,
    ensures
        after.wf(),
{
    let n = before.definitions.entries@.len() as int;
    assert forall|k: int| 0 <= k < after.runs@.len() implies #[trigger] after.run_ok(k) by {
        assert(before.run_ok(k));
        assert(after.definitions.entries@.take(n)[after.slots@[k] as int]
            == after.definitions.entries@[after.slots@[k] as int]);
    }
}

/// An engine that has gained a consistent run, bound to a definition of
/// its store and under the next id, is consistent.
proof fn lemma_run_added(before: Engine, after: Engine)
    requires
        before.wf(),
        after.definitions == before.definitions,
        after.runs@.len() == before.runs@.len() + 1,
        after.slots@.len() == after.runs@.len(),
        after.runs@.take(before.runs@.len() as int) == before.runs@,
        after.slots@.take(before.runs@.len() as int) == before.slots@,
        after.run_ok(before.runs@.len() as int),
    ensures
        after.wf(),
{
    let n = before.runs@.len() as int;
    assert forall|k: int| 0 <= k < after.runs@.len() implies #[trigger] after.run_ok(k) by {
        if k < n {
            assert(before.run_ok(k));
            assert(after.runs@.take(n)[k] == after.runs@[k]);
            assert(after.slots@.take(n)[k] == after.slots@[k]);
        }
    }
}

/// The workflow engine.
#[derive(Debug, PartialEq, Eq)]
pub struct Engine {
    pub definitions: DefinitionStore,
    /// Every run; a run's id is its position.
    pub runs: Vec<Run>,
    /// For each run, the position of its definition in the store.
    pub slots: Vec<usize>,
    pub kinds: Registry,
    pub config: EngineConfig,
}

impl Engine {
    /// The plan by which run `r` is run.
    pub open spec fn plan_of(&self, r: int) -> Plan {
        self.definitions.entries@[self.slots@[r] as int].plan
    }

    /// The most steps that run `r` may dispatch: what its definition says,
    /// or else what the engine's configuration says.
    pub open spec fn budget_of(&self, r: int) -> u64 {
        match self.plan_of(r).step_budget {
            Some(b) => b,
            None => self.config.step_budget,
        }
    }

    /// Run `r` is consistent, and bound to a definition of the store.
    pub open spec fn run_ok(&self, r: int) -> bool {
        let slot = self.slots@[r] as int;
        let bound = self.definitions.entries@[slot].definition;
        &&& slot < self.definitions.entries@.len()
        &&& self.runs@[r].id == r
        &&& self.runs@[r].wf(self.plan_of(r).steps@.len() as int)
        &&& self.runs@[r].definition_id@ == bound.id@
        &&& self.runs@[r].definition_version == bound.version
    }

    /// The engine's consistency.
    pub open spec fn wf(&self) -> bool {
        &&& self.definitions.wf()
        &&& self.slots@.len() == self.runs@.len()
        &&& forall|r: int| 0 <= r < self.runs@.len() ==> #[trigger] self.run_ok(r)
    }

    /// Nothing but run `r` has changed since `before`.
    pub open spec fn others_kept(&self, before: Engine, r: int) -> bool {
        &&& self.definitions == before.definitions
        &&& self.slots == before.slots
        &&& self.kinds == before.kinds
        &&& self.config == before.config
        &&& self.runs@.len() == before.runs@.len()
        &&& forall|j: int|
            0 <= j < self.runs@.len() && j != r ==> #[trigger] self.runs@[j] == before.runs@[j]
    }

    /// An engine without definitions, runs or kinds.
    pub fn with_config(config: EngineConfig) -> (r: Engine)
        ensures
            r.wf(),
            r.definitions.entries@.len() == 0,
            r.runs@.len() == 0,
            r.kinds.kinds@.len() == 0,
            r.config == config,
    {
        Engine {
            definitions: DefinitionStore::new(),
            runs: Vec::new(),
            slots: Vec::new(),
            kinds: Registry::new(),
            config,
        }
    }

    /// An engine with the standard configuration.
    pub fn new() -> (r: Engine)
        ensures
            r.wf(),
            r.definitions.entries@.len() == 0,
            r.runs@.len() == 0,
            r.kinds.kinds@.len() == 0,
            r.config == (EngineConfig {
                step_budget: 10000,
                retry: RetryPolicy { max_attempts: 3, base_delay_ms: 100, max_delay_ms: 10000 },
            }),
    {
        Engine::with_config(EngineConfig::standard())
    }

    /// Readies the engine for use. There is nothing to make ready: the
    /// engine is usable as it was built, and this always succeeds.
    pub fn start(&self) -> (r: Result<(), EngineError>)
        ensures
            r == Ok::<(), EngineError>(()),
    {
        Ok(())
    }

    /// Validates a definition and publishes it under the next version of
    /// its id.
    pub fn submit_definition(&mut self, definition: WorkflowDefinition) -> (r: Result<
        (String, i32),
        EngineError,
    >)
        requires
            old(self).wf(),
        ensures
            final(self).wf(),
            final(self).runs == old(self).runs,
            final(self).slots == old(self).slots,
            final(self).kinds == old(self).kinds,
            final(self).config == old(self).config,
            match r {
                Ok((id, version)) => {
                    let n = old(self).definitions.entries@.len() as int;
                    &&& check(definition) is None
                    &&& id@ == definition.id@
                    &&& version == crate::store::latest_version(
                        old(self).definitions.entries@,
                        definition.id@,
                    ) + 1
                    &&& final(self).definitions.entries@.len() == n + 1
                    &&& final(self).definitions.entries@.take(n) == old(
                        self,
                    ).definitions.entries@
                    &&& final(self).definitions.entries@[n].definition == definition.published_as(
                        version,
                    )
                    &&& compiled(final(self).definitions.entries@[n].plan, definition)
                },
                Err(e) => {
                    &&& final(self).definitions.entries@ == old(self).definitions.entries@
                    &&& match check(definition) {
                        Some(v) => e == EngineError::Validation(v),
                        None => e == EngineError::VersionsExhausted
                            && crate::store::latest_version(
                            old(self).definitions.entries@,
                            definition.id@,
                        ) == i32::MAX,
                    }
                },
            },
    {
        let r = self.definitions.publish(definition);
        proof {
            let kept = old(self).definitions.entries@.len() as int;
            assert(self.definitions.entries@.take(kept) =~= old(self).definitions.entries@);
            lemma_store_grown(*old(self), *self);
        }
        r
    }

    /// The definition published under `id`: in `version`, or the latest.
    pub fn get_definition(&self, id: &str, version: Option<i32>) -> (r: Result<
        &WorkflowDefinition,
        EngineError,
    >)
        ensures
            match r {
                Ok(d) => last_match(self.definitions.entries@, id@, version) matches Some(i)
                    && self.definitions.entries@[i].definition == *d,
                Err(e) => last_match(self.definitions.entries@, id@, version) is None && (
                e matches EngineError::UnknownWorkflow(s) && s@ == id@),
            },
    {
        match self.definitions.locate(id, version) {
            Some(i) => Ok(&self.definitions.entries[i].definition),
            None => Err(EngineError::UnknownWorkflow(id.to_owned())),
        }
    }

    /// Creates a run of the definition published under `definition_id`, in
    /// `version` or else the latest. The run is `Pending` and has the next
    /// free id.
    pub fn start_run(&mut self, definition_id: &str, version: Option<i32>, context: Context) -> (r:
        Result<u64, EngineError>)
        requires
            old(self).wf(),
        ensures
            final(self).wf(),
            final(self).definitions == old(self).definitions,
            final(self).kinds == old(self).kinds,
            final(self).config == old(self).config,
            match last_match(old(self).definitions.entries@, definition_id@, version) {
                Some(slot) => {
                    let n = old(self).runs@.len() as int;
                    let bound = old(self).definitions.entries@[slot].definition;
                    &&& r == Ok::<u64, EngineError>(n as u64)
                    &&& final(self).runs@.len() == n + 1
                    &&& final(self).runs@.take(n) == old(self).runs@
                    &&& final(self).slots@ == old(self).slots@.push(slot as usize)
                    &&& final(self).runs@[n].state is Pending
                    &&& final(self).runs@[n].untouched()
                    &&& final(self).runs@[n].context == context
                    &&& final(self).runs@[n].definition_id@ == bound.id@
                    &&& final(self).runs@[n].definition_version == bound.version
                },
                None => {
                    &&& *final(self) == *old(self)
                    &&& (r matches Err(EngineError::UnknownWorkflow(s)) && s@ == definition_id@)
                },
            },
    {
        let slot = match self.definitions.locate(definition_id, version) {
            Some(slot) => slot,
            None => {
                return Err(EngineError::UnknownWorkflow(definition_id.to_owned()));
            },
        };
        let n = self.runs.len();
        let entry = &self.definitions.entries[slot];
        let run = Run::create(
            n as u64,
            entry.definition.id.clone(),
            entry.definition.version,
            &entry.plan,
            context,
        );
        self.runs.push(run);
        self.slots.push(slot);
        proof {
            assert(self.runs@.take(n as int) =~= old(self).runs@);
            assert(self.slots@.take(n as int) =~= old(self).slots@);
            lemma_run_added(*old(self), *self);
        }
        Ok(n as u64)
    }

    /// The run with the id `run_id`, as it stands.
    pub fn get_run_state(&self, run_id: u64) -> (r: Result<&Run, EngineError>)
        ensures
            match r {
                Ok(run) => run_id < self.runs@.len() && *run == self.runs@[run_id as int],
                Err(e) => run_id >= self.runs@.len() && e == EngineError::UnknownRun(run_id),
            },
    {
        if run_id >= self.runs.len() as u64 {
            return Err(EngineError::UnknownRun(run_id));
        }
        Ok(&self.runs[run_id as usize])
    }

    /// What a query for the state of the run `run_id` answers: the run, with
    /// each step under the id that the run's definition gives it.
    pub fn run_snapshot(&self, run_id: u64) -> (r: Result<RunSnapshot, EngineError>)
        requires
            self.wf(),
        ensures
            match r {
                Ok(shot) => run_id < self.runs@.len() && shot.shows(
                    self.runs@[run_id as int],
                    self.definitions.entries@[self.slots@[run_id as int] as int].definition,
                ),
                Err(e) => run_id >= self.runs@.len() && e == EngineError::UnknownRun(run_id),
            },
    {
        if run_id >= self.runs.len() as u64 {
            return Err(EngineError::UnknownRun(run_id));
        }
        let i = run_id as usize;
        assert(self.run_ok(i as int));
        let slot = self.slots[i];
        proof {
            assert(crate::store::entry_ok(self.definitions.entries@, slot as int));
        }
        Ok(self.runs[i].snapshot(&self.definitions.entries[slot].definition))
    }

    /// The ids of the runs that are in the state `filter`, or of all runs
    /// where no state is given, in ascending order.
    pub fn list_runs(&self, filter: Option<WorkflowState>) -> (r: Vec<u64>)
        ensures
            r@ == selected(self.runs@, filter, self.runs@.len() as int),
    {
        let mut ids: Vec<u64> = Vec::new();
        let mut i: usize = 0;
        while i < self.runs.len()
            invariant
                i <= self.runs@.len(),
                ids@ == selected(self.runs@, filter, i as int),
            decreases self.runs@.len() - i,
        {
            let state = self.runs[i].state;
            let pass = match filter {
                None => true,
                Some(wanted) => wanted == state,
            };
            if pass {
                ids.push(i as u64);
            }
            i += 1;
        }
        ids
    }

    /// Says what is to be done next for a run. A `Pending` run is started
    /// first; then the run's next action is taken (see [`Run::next_action`]).
    pub fn next_action(&mut self, run_id: u64) -> (r: Result<Action, EngineError>)
        requires
            old(self).wf(),
        ensures
            final(self).wf(),
            run_id >= old(self).runs@.len() ==> r == Err::<Action, EngineError>(
                EngineError::UnknownRun(run_id),
            ) && *final(self) == *old(self),
            run_id < old(self).runs@.len() ==> (r matches Ok(action) && final(self).others_kept(
                *old(self),
                run_id as int,
            ) && exists|mid: Run| #[trigger]
                mid.started(old(self).runs@[run_id as int], old(self).plan_of(run_id as int))
                    && final(self).runs@[run_id as int].acted(
                    mid,
                    old(self).budget_of(run_id as int),
                    action,
                )),
    {
        if run_id >= self.runs.len() as u64 {
            return Err(EngineError::UnknownRun(run_id));
        }
        let i = run_id as usize;
        assert(self.run_ok(i as int));
        let slot = self.slots[i];
        let plan = &self.definitions.entries[slot].plan;
        let budget = match plan.step_budget {
            Some(b) => b,
            None => self.config.step_budget,
        };
        proof {
            assert(crate::store::entry_ok(self.definitions.entries@, slot as int));
        }
        let run = &mut self.runs[i];
        run.start(plan);
        let ghost mid = *run;
        let action = run.next_action(plan, budget);
        proof {
            assert(mid.started(old(self).runs@[i as int], old(self).plan_of(i as int)));
            lemma_run_replaced(*old(self), *self, i as int);
        }
        Ok(action)
    }

    /// Takes the outcome of the execution of a step (see
    /// [`Run::record_outcome`]). Failing steps are retried by the step's own
    /// policy, or else by the engine's.
    pub fn report_outcome(&mut self, run_id: u64, step: usize, outcome: Outcome) -> (r: Result<
        Followup,
        EngineError,
    >)
        requires
            old(self).wf(),
        ensures
            final(self).wf(),
            run_id >= old(self).runs@.len() ==> r == Err::<Followup, EngineError>(
                EngineError::UnknownRun(run_id),
            ) && *final(self) == *old(self),
            run_id < old(self).runs@.len() ==> final(self).others_kept(*old(self), run_id as int)
                && final(self).runs@[run_id as int].outcome_taken(
                old(self).runs@[run_id as int],
                old(self).plan_of(run_id as int),
                step,
                outcome,
                old(self).config.retry,
                r,
            ),
    {
        if run_id >= self.runs.len() as u64 {
            return Err(EngineError::UnknownRun(run_id));
        }
        let i = run_id as usize;
        assert(self.run_ok(i as int));
        let slot = self.slots[i];
        let plan = &self.definitions.entries[slot].plan;
        proof {
            assert(crate::store::entry_ok(self.definitions.entries@, slot as int));
        }
        let fallback = self.config.retry;
        let run = &mut self.runs[i];
        let r = run.record_outcome(plan, step, outcome, fallback);
        proof {
            lemma_run_replaced(*old(self), *self, i as int);
        }
        r
    }

    /// Queues a step again whose wait before a retry is over (see
    /// [`Run::retry_due`]).
    pub fn retry_due(&mut self, run_id: u64, step: usize) -> (r: Result<(), EngineError>)
        requires
            old(self).wf(),
        ensures
            final(self).wf(),
            run_id >= old(self).runs@.len() ==> r == Err::<(), EngineError>(
                EngineError::UnknownRun(run_id),
            ) && *final(self) == *old(self),
            run_id < old(self).runs@.len() ==> final(self).others_kept(*old(self), run_id as int)
                && final(self).runs@[run_id as int].requeued(
                old(self).runs@[run_id as int],
                step,
                r,
            ),
    {
        if run_id >= self.runs.len() as u64 {
            return Err(EngineError::UnknownRun(run_id));
        }
        let i = run_id as usize;
        assert(self.run_ok(i as int));
        let run = &mut self.runs[i];
        let r = run.retry_due(step);
        proof {
            lemma_run_replaced(*old(self), *self, i as int);
        }
        r
    }

    /// Cancels a run that is `Pending` or `Running`, and says whether it
    /// did. A run that has ended stays as it is.
    pub fn cancel_run(&mut self, run_id: u64) -> (r: Result<bool, EngineError>)
        requires
            old(self).wf(),
        ensures
            final(self).wf(),
            run_id >= old(self).runs@.len() ==> r == Err::<bool, EngineError>(
                EngineError::UnknownRun(run_id),
            ) && *final(self) == *old(self),
            run_id < old(self).runs@.len() ==> (r matches Ok(done) && final(self).others_kept(
                *old(self),
                run_id as int,
            ) && final(self).runs@[run_id as int].cancelled(old(self).runs@[run_id as int], done)),
    {
        if run_id >= self.runs.len() as u64 {
            return Err(EngineError::UnknownRun(run_id));
        }
        let i = run_id as usize;
        assert(self.run_ok(i as int));
        let run = &mut self.runs[i];
        let done = run.cancel();
        proof {
            lemma_run_replaced(*old(self), *self, i as int);
        }
        Ok(done)
    }
}

} // verus!
