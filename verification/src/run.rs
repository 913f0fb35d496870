//! A run and its state machine.
//!
//! The engine decides; something else does the work. A run says what is to
//! be done next ([`Run::next_action`]) and takes what came of it
//! ([`Run::record_outcome`], [`Run::retry_due`], [`Run::cancel`]).

use crate::error::EngineError;
use crate::condition::scope;
use crate::evaluator::{
    evaluate, evaluation, fires, lemma_first_match, lemma_no_match, lemma_selected_is_target,
    Evaluation,
};
use crate::model::{RetryPolicy, StepState, WorkflowDefinition, WorkflowState};
use crate::plan::{graph, Plan, Target};
use crate::retry::backoff;
use crate::value::{Context, Datum};
use vstd::prelude::*;
use vstd::string::*;

verus! {

/// What a capability reports of one execution of a step.
#[derive(Clone, Debug, PartialEq, Eq)]
pub enum Outcome {
    /// The step succeeded and produced these fields.
    Succeeded(Context),
    /// The step failed, for this cause.
    Failed(String),
    /// The step did not finish in time.
    TimedOut,
}

/// One recorded execution of a step.
#[derive(Clone, Debug, PartialEq, Eq)]
pub struct Attempt {
    pub step: usize,
    pub succeeded: bool,
    /// Why it failed, where it did.
    pub cause: Option<String>,
}

/// One change of a step's state.
#[derive(Clone, Copy, Debug, PartialEq, Eq, Structural)]
pub struct Event {
    pub step: usize,
    pub from: StepState,
    pub to: StepState,
}

/// What is to be done next for a run.
#[derive(Clone, Copy, Debug, PartialEq, Eq, Structural)]
pub enum Action {
    /// Run the step at this position, and report its outcome.
    Invoke(usize),
    /// Nothing can be dispatched before something outstanding is reported:
    /// an outcome, or that a retry is due.
    Wait,
    /// The run has ended.
    Finished,
}

/// What follows the report of an outcome.
#[derive(Clone, Copy, Debug, PartialEq, Eq, Structural)]
pub enum Followup {
    /// Ask for the next action.
    Continue,
    /// Wait this many milliseconds, then report that the step's retry is due.
    RetryAfter(u64),
    /// The run has ended.
    Finished,
}

/// The moves that a step's state can make.
pub open spec fn legal(from: StepState, to: StepState) -> bool {
    from.advances_to(to) || from.reenters(to)
}

/// The state of step `i` after the events of `h`.
pub open spec fn state_after(h: Seq<Event>, i: int) -> StepState
    decreases h.len(),
{
    if h.len() == 0 {
        StepState::Idle
    } else if h.last().step == i {
        h.last().to
    } else {
        state_after(h.drop_last(), i)
    }
}

/// Whether event `k` of `h` is a legal move of one of `n` steps, from the
/// state in which the events before it left that step.
pub open spec fn event_ok(h: Seq<Event>, k: int, n: int) -> bool {
    &&& h[k].step < n
    &&& legal(h[k].from, h[k].to)
    &&& h[k].from == state_after(h.take(k), h[k].step as int)
}

/// Whether `h` is a history of legal moves that leads to `states`.
pub open spec fn history_ok(h: Seq<Event>, states: Seq<StepState>) -> bool {
    &&& forall|k: int| 0 <= k < h.len() ==> #[trigger] event_ok(h, k, states.len() as int)
    &&& forall|i: int| 0 <= i < states.len() ==> state_after(h, i) == #[trigger] states[i]
}

/// Whether step `i` stands in `queue`.
pub open spec fn queued_at(queue: Seq<usize>, i: int) -> bool {
    exists|q: int| 0 <= q < queue.len() && #[trigger] queue[q] == i
}

/// Whether `queue` holds exactly the steps that are `Queued`, each once.
pub open spec fn queue_ok(queue: Seq<usize>, states: Seq<StepState>) -> bool {
    &&& forall|q: int|
        0 <= q < queue.len() ==> (#[trigger] queue[q]) < states.len()
            && states[queue[q] as int] is Queued
    &&& forall|a: int, b: int| 0 <= a < b < queue.len() ==> queue[a] != queue[b]
    &&& forall|i: int|
        0 <= i < states.len() && (#[trigger] states[i]) is Queued ==> queued_at(queue, i)
}

/// Whether a step in this state is under way: it waits for dispatch, it
/// runs, or it has failed.
pub open spec fn under_way(s: StepState) -> bool {
    s is Queued || s is Running || s is Failed
}

/// No step but step `i` is under way.
pub open spec fn none_but(states: Seq<StepState>, i: int) -> bool {
    forall|j: int| 0 <= j < states.len() && j != i ==> !under_way(#[trigger] states[j])
}

/// A run goes one step at a time: while a step is under way, no other is.
pub open spec fn one_at_a_time(states: Seq<StepState>) -> bool {
    forall|i: int| 0 <= i < states.len() && under_way(#[trigger] states[i]) ==> none_but(states, i)
}

/// Where no step but `i` is under way, step `i` may move as it likes.
proof fn lemma_sole(states: Seq<StepState>, i: int, to: StepState)
    requires
        0 <= i < states.len(),
        none_but(states, i),
    ensures
        none_but(states.update(i, to), i),
        one_at_a_time(states.update(i, to)),
{
    let after = states.update(i, to);
    assert forall|j: int| 0 <= j < after.len() && j != i implies !under_way(#[trigger] after[j]) by {
        assert(!under_way(states[j]));
    }
    assert forall|k: int| 0 <= k < after.len() && under_way(#[trigger] after[k]) implies none_but(
        after,
        k,
    ) by {}
}

/// Where no step is under way, any one may begin.
proof fn lemma_any_may_begin(states: Seq<StepState>, i: int, t: int)
    requires
        0 <= i < states.len(),
        none_but(states, i),
        !under_way(states[i]),
    ensures
        none_but(states, t),
{
    assert forall|j: int| 0 <= j < states.len() && j != t implies !under_way(#[trigger] states[j]) by {
        if j != i {
            assert(!under_way(states[j]));
        }
    }
}

/// To end a run puts no step under way.
proof fn lemma_finalized_one_at_a_time(states: Seq<StepState>)
    requires
        one_at_a_time(states),
    ensures
        one_at_a_time(finalized(states)),
{
    let after = finalized(states);
    assert forall|i: int| 0 <= i < after.len() && under_way(#[trigger] after[i]) implies none_but(
        after,
        i,
    ) by {
        assert(under_way(states[i]));
        assert forall|j: int| 0 <= j < after.len() && j != i implies !under_way(
            #[trigger] after[j],
        ) by {
            assert(!under_way(states[j]));
        }
    }
}

/// While a step runs or has failed, nothing is queued.
pub proof fn lemma_nothing_queued(queue: Seq<usize>, states: Seq<StepState>, i: int)
    requires
        queue_ok(queue, states),
        one_at_a_time(states),
        0 <= i < states.len(),
        states[i] is Running || states[i] is Failed,
    ensures
        queue.len() == 0,
{
    if queue.len() > 0 {
        let j = queue[0];
        assert(states[j as int] is Queued);
        assert(under_way(states[i]));
    }
}

/// The states after every step that never left `Idle` has become `Skipped`.
pub open spec fn finalized(states: Seq<StepState>) -> Seq<StepState> {
    Seq::new(
        states.len(),
        |i: int|
            if states[i] is Idle {
                StepState::Skipped
            } else {
                states[i]
            },
    )
}

/// The events by which the first `n` steps, where `Idle`, become `Skipped`.
pub open spec fn skip_events(states: Seq<StepState>, n: int) -> Seq<Event>
    decreases n,
{
    if n <= 0 {
        Seq::empty()
    } else if states[n - 1] is Idle {
        skip_events(states, n - 1).push(
            Event { step: (n - 1) as usize, from: StepState::Idle, to: StepState::Skipped },
        )
    } else {
        skip_events(states, n - 1)
    }
}

/// A legal move of a step, appended to a history, gives a history.
proof fn lemma_history_push(h: Seq<Event>, states: Seq<StepState>, e: Event)
    requires
        history_ok(h, states),
        e.step < states.len(),
        e.from == states[e.step as int],
        legal(e.from, e.to),
    ensures
        history_ok(h.push(e), states.update(e.step as int, e.to)),
{
    let h2 = h.push(e);
    let s2 = states.update(e.step as int, e.to);
    assert(h2.drop_last() =~= h);
    assert forall|k: int| 0 <= k < h2.len() implies #[trigger] event_ok(
        h2,
        k,
        s2.len() as int,
    ) by {
        if k < h.len() {
            assert(event_ok(h, k, states.len() as int));
            assert(h2.take(k) =~= h.take(k));
        } else {
            assert(h2.take(k) =~= h);
        }
    }
    assert forall|i: int| 0 <= i < s2.len() implies state_after(h2, i) == #[trigger] s2[i] by {
        assert(state_after(h, i) == states[i]);
    }
}

/// A queue stays good while the same steps are `Queued`.
proof fn lemma_queue_keep(queue: Seq<usize>, before: Seq<StepState>, after: Seq<StepState>)
    requires
        queue_ok(queue, before),
        before.len() == after.len(),
        forall|i: int|
            0 <= i < before.len() ==> ((#[trigger] before[i]) is Queued <==> after[i] is Queued),
    ensures
        queue_ok(queue, after),
{
    assert forall|q: int| 0 <= q < queue.len() implies (#[trigger] queue[q]) < after.len()
        && after[queue[q] as int] is Queued by {
        assert(before[queue[q] as int] is Queued);
    }
    assert forall|i: int| 0 <= i < after.len() && (#[trigger] after[i]) is Queued implies queued_at(
        queue,
        i,
    ) by {
        assert(before[i] is Queued);
    }
}

/// Moves step `i` to the state `to`, and records the move.
fn shift(states: &mut Vec<StepState>, history: &mut Vec<Event>, i: usize, to: StepState)
    requires
        i < old(states)@.len(),
        history_ok(old(history)@, old(states)@),
        legal(old(states)@[i as int], to),
    ensures
        final(states)@ == old(states)@.update(i as int, to),
        final(history)@ == old(history)@.push(
            Event { step: i, from: old(states)@[i as int], to },
        ),
        history_ok(final(history)@, final(states)@),
{
    let from = states[i];
    let e = Event { step: i, from, to };
    proof {
        lemma_history_push(history@, states@, e);
    }
    states.set(i, to);
    history.push(e);
}

/// Puts step `t` in the queue, unless it is queued or running already.
fn enqueue(
    states: &mut Vec<StepState>,
    history: &mut Vec<Event>,
    queue: &mut Vec<usize>,
    t: usize,
)
    requires
        t < old(states)@.len(),
        history_ok(old(history)@, old(states)@),
        queue_ok(old(queue)@, old(states)@),
        !(old(states)@[t as int] is Skipped),
    ensures
        history_ok(final(history)@, final(states)@),
        queue_ok(final(queue)@, final(states)@),
        old(states)@[t as int] is Queued || old(states)@[t as int] is Running ==> {
            &&& final(states)@ == old(states)@
            &&& final(history)@ == old(history)@
            &&& final(queue)@ == old(queue)@
        },
        !(old(states)@[t as int] is Queued || old(states)@[t as int] is Running) ==> {
            &&& final(states)@ == old(states)@.update(t as int, StepState::Queued)
            &&& final(history)@ == old(history)@.push(
                Event { step: t, from: old(states)@[t as int], to: StepState::Queued },
            )
            &&& final(queue)@ == old(queue)@.push(t)
        },
{
    let s = states[t];
    if s == StepState::Queued || s == StepState::Running {
        return ;
    }
    shift(states, history, t, StepState::Queued);
    queue.push(t);
    proof {
        let q0 = old(queue)@;
        let q1 = queue@;
        let s0 = old(states)@;
        let s1 = states@;
        assert forall|q: int| 0 <= q < q1.len() implies (#[trigger] q1[q]) < s1.len()
            && s1[q1[q] as int] is Queued by {
            if q < q0.len() {
                assert(q0[q] < s0.len() && s0[q0[q] as int] is Queued);
            }
        }
        assert forall|a: int, b: int| 0 <= a < b < q1.len() implies q1[a] != q1[b] by {
            if b == q0.len() {
                assert(s0[q0[a] as int] is Queued);
            }
        }
        assert forall|i: int| 0 <= i < s1.len() && (#[trigger] s1[i]) is Queued implies queued_at(
            q1,
            i,
        ) by {
            if i == t {
                assert(q1[q0.len() as int] == t);
            } else {
                assert(s0[i] is Queued);
                let q = choose|q: int| 0 <= q < q0.len() && #[trigger] q0[q] == i;
                assert(q1[q] == i);
            }
        }
    }
}

/// Makes every step that never left `Idle` a `Skipped` one.
fn finalize(states: &mut Vec<StepState>, history: &mut Vec<Event>)
    requires
        history_ok(old(history)@, old(states)@),
    ensures
        final(states)@ == finalized(old(states)@),
        final(history)@ == old(history)@ + skip_events(old(states)@, old(states)@.len() as int),
        history_ok(final(history)@, final(states)@),
{
    let n = states.len();
    let ghost s0 = states@;
    let ghost h0 = history@;
    let mut i: usize = 0;
    assert(h0 + skip_events(s0, 0) =~= h0);
    while i < n
        invariant
            i <= n,
            n == s0.len(),
            states@.len() == n,
            forall|j: int| 0 <= j < i ==> #[trigger] states@[j] == finalized(s0)[j],
            forall|j: int| i <= j < n ==> #[trigger] states@[j] == s0[j],
            history@ == h0 + skip_events(s0, i as int),
            history_ok(history@, states@),
        decreases n - i,
    {
        if states[i] == StepState::Idle {
            shift(states, history, i, StepState::Skipped);
            assert(history@ =~= h0 + skip_events(s0, i + 1));
        }
        i += 1;
    }
    assert(states@ =~= finalized(s0));
}

/// A queue without its head is good once the head is `Running`.
proof fn lemma_dequeue(queue: Seq<usize>, states: Seq<StepState>)
    requires
        queue_ok(queue, states),
        queue.len() > 0,
    ensures
        queue_ok(queue.drop_first(), states.update(queue[0] as int, StepState::Running)),
{
    let q1 = queue.drop_first();
    let s1 = states.update(queue[0] as int, StepState::Running);
    assert forall|q: int| 0 <= q < q1.len() implies (#[trigger] q1[q]) < s1.len()
        && s1[q1[q] as int] is Queued by {
        assert(q1[q] == queue[q + 1]);
        assert(queue[q + 1] < states.len() && states[queue[q + 1] as int] is Queued);
    }
    assert forall|a: int, b: int| 0 <= a < b < q1.len() implies q1[a] != q1[b] by {
        assert(q1[a] == queue[a + 1] && q1[b] == queue[b + 1]);
    }
    assert forall|i: int| 0 <= i < s1.len() && (#[trigger] s1[i]) is Queued implies queued_at(
        q1,
        i,
    ) by {
        assert(states[i] is Queued);
        let q = choose|q: int| 0 <= q < queue.len() && #[trigger] queue[q] == i;
        assert(q1[q - 1] == i);
    }
}

/// The states after step `t` was put in the queue.
pub open spec fn queued_states(states: Seq<StepState>, t: int) -> Seq<StepState> {
    if states[t] is Queued || states[t] is Running {
        states
    } else {
        states.update(t, StepState::Queued)
    }
}

/// The history after step `t` was put in the queue.
pub open spec fn queued_history(h: Seq<Event>, states: Seq<StepState>, t: int) -> Seq<Event> {
    if states[t] is Queued || states[t] is Running {
        h
    } else {
        h.push(Event { step: t as usize, from: states[t], to: StepState::Queued })
    }
}

/// The queue after step `t` was put in it.
pub open spec fn queued_queue(queue: Seq<usize>, states: Seq<StepState>, t: int) -> Seq<usize> {
    if states[t] is Queued || states[t] is Running {
        queue
    } else {
        queue.push(t as usize)
    }
}

/// Why an outcome is a failure, in words; none for a success.
pub open spec fn failure_text(outcome: Outcome) -> Option<Seq<char>> {
    match outcome {
        Outcome::Succeeded(_) => None,
        Outcome::Failed(cause) => Some(cause@),
        Outcome::TimedOut => Some("deadline exceeded"@),
    }
}

/// The characters of an optional text.
pub open spec fn text_view(text: Option<String>) -> Option<Seq<char>> {
    match text {
        Some(t) => Some(t@),
        None => None,
    }
}

/// The state in which an outcome leaves its step.
pub open spec fn settled(outcome: Outcome) -> StepState {
    if outcome is Succeeded {
        StepState::Succeeded
    } else {
        StepState::Failed
    }
}

/// Those of the first `n` attempts of `log` that were made at `step`, in order.
pub open spec fn attempts_at(log: Seq<Attempt>, step: usize, n: int) -> Seq<Attempt>
    decreases n,
{
    if n <= 0 {
        Seq::empty()
    } else if log[n - 1].step == step {
        attempts_at(log, step, n - 1).push(log[n - 1])
    } else {
        attempts_at(log, step, n - 1)
    }
}

/// The retry policy of a step: its own, or else the one given.
pub open spec fn policy_of(plan: Plan, step: int, fallback: RetryPolicy) -> RetryPolicy {
    match plan.steps@[step].retry {
        Some(p) => p,
        None => fallback,
    }
}

/// One more failure in a row, as far as the counter goes.
pub open spec fn one_more(failures: u32) -> u32 {
    if failures < u32::MAX {
        (failures + 1) as u32
    } else {
        failures
    }
}

/// One step of a run, as a query for the run's state shows it.
#[derive(Clone, Debug, PartialEq, Eq)]
pub struct StepSnapshot {
    pub id: String,
    pub state: StepState,
    /// The step's recorded executions, in order.
    pub attempts: Vec<Attempt>,
}

/// What a query for a run's state answers.
#[derive(Clone, Debug, PartialEq, Eq)]
pub struct RunSnapshot {
    pub run_id: u64,
    pub definition_id: String,
    pub definition_version: i32,
    pub state: WorkflowState,
    /// Why the run failed, in words, where it did.
    pub failure: Option<String>,
    /// The steps, in the order of the definition.
    pub steps: Vec<StepSnapshot>,
    pub context: Context,
}

impl StepSnapshot {
    /// Whether this is step `i` of `run`, under the id that `definition`
    /// gives it.
    pub open spec fn shows(&self, run: Run, definition: WorkflowDefinition, i: int) -> bool {
        &&& self.id == definition.steps@[i].id
        &&& self.state == run.states@[i]
        &&& self.attempts@ == attempts_at(run.attempts@, i as usize, run.attempts@.len() as int)
    }
}

impl RunSnapshot {
    /// Whether this is `run`, a run of `definition`.
    pub open spec fn shows(&self, run: Run, definition: WorkflowDefinition) -> bool {
        &&& self.run_id == run.id
        &&& self.definition_id == run.definition_id
        &&& self.definition_version == run.definition_version
        &&& self.state == run.state
        &&& text_view(self.failure) == match run.failure {
            Some(e) => Some(e.text()),
            None => None,
        }
        &&& self.context.entries@ == run.context.entries@
        &&& self.steps@.len() == run.states@.len()
        &&& forall|i: int|
            0 <= i < self.steps@.len() ==> (#[trigger] self.steps@[i]).shows(run, definition, i)
    }
}

/// One execution of a workflow definition.
#[derive(Clone, Debug, PartialEq, Eq)]
pub struct Run {
    pub id: u64,
    /// The definition that the run executes, in exactly this version.
    pub definition_id: String,
    pub definition_version: i32,
    pub state: WorkflowState,
    /// The variable context, as the outcomes so far have left it.
    pub context: Context,
    /// The state of each step, by position.
    pub states: Vec<StepState>,
    /// How often each step has failed in a row.
    pub failures: Vec<u32>,
    /// Every execution of a step, in order.
    pub attempts: Vec<Attempt>,
    /// The steps that wait for dispatch, oldest first.
    pub queue: Vec<usize>,
    /// The steps in the order in which they were dispatched.
    pub dispatched: Vec<usize>,
    /// Every change of a step's state, in order.
    pub history: Vec<Event>,
    /// Why the run failed, where it did.
    pub failure: Option<EngineError>,
}

impl Run {
    /// Nothing has happened in the run yet.
    pub open spec fn untouched(&self) -> bool {
        &&& forall|i: int| 0 <= i < self.states@.len() ==> (#[trigger] self.states@[i]) is Idle
        &&& forall|i: int| 0 <= i < self.failures@.len() ==> #[trigger] self.failures@[i] == 0
        &&& self.queue@.len() == 0
        &&& self.history@.len() == 0
        &&& self.dispatched@.len() == 0
        &&& self.attempts@.len() == 0
    }

    /// The run's consistency, for a definition of `n` steps.
    ///
    /// At most one step is under way at a time. The history holds legal
    /// moves only, each from the state in which the moves before it left
    /// the step, and leads to the present states. A
    /// move either advances a step along `Idle → Queued → Running →
    /// {Succeeded | Failed | Skipped}` or queues a step again that has
    /// succeeded or failed.
    pub open spec fn wf(&self, n: int) -> bool {
        &&& self.states@.len() == n
        &&& self.failures@.len() == n
        &&& !(self.state is Created)
        &&& (self.failure is Some <==> self.state is Failed)
        &&& queue_ok(self.queue@, self.states@)
        &&& history_ok(self.history@, self.states@)
        &&& one_at_a_time(self.states@)
        &&& (self.state is Pending ==> self.untouched())
        &&& (!self.state.terminal() ==> forall|i: int|
            0 <= i < n ==> !((#[trigger] self.states@[i]) is Skipped))
    }

    /// The run is the same run of the same definition.
    pub open spec fn same_binding(&self, other: Run) -> bool {
        &&& self.id == other.id
        &&& self.definition_id == other.definition_id
        &&& self.definition_version == other.definition_version
    }

    /// Some step is running, or has failed and waits for its retry.
    pub open spec fn busy(&self) -> bool {
        exists|i: int|
            0 <= i < self.states@.len() && ((#[trigger] self.states@[i]) is Running
                || self.states@[i] is Failed)
    }

    /// Whether an outcome is awaited from `step`.
    pub open spec fn awaits(&self, step: usize) -> bool {
        step < self.states@.len() && self.states@[step as int] is Running
    }

    /// The run has ended in `state`: every step that never left `Idle` is
    /// `Skipped`, and nothing else has changed since `before`, where `states`
    /// and `history` were the states and the history.
    pub open spec fn ended(
        &self,
        before: Run,
        state: WorkflowState,
        states: Seq<StepState>,
        history: Seq<Event>,
    ) -> bool {
        &&& self.state == state
        &&& self.states@ == finalized(states)
        &&& self.history@ == history + skip_events(states, states.len() as int)
        &&& self.queue@ == before.queue@
    }

    /// A new run of the definition that `plan` stands for: `Pending`, with
    /// every step `Idle`.
    pub fn create(
        id: u64,
        definition_id: String,
        definition_version: i32,
        plan: &Plan,
        context: Context,
    ) -> (r: Run)
        ensures
            r.wf(plan.steps@.len() as int),
            r.state is Pending,
            r.untouched(),
            r.id == id,
            r.definition_id == definition_id,
            r.definition_version == definition_version,
            r.context == context,
            r.failure is None,
    {
        let n = plan.steps.len();
        let mut states: Vec<StepState> = Vec::new();
        let mut failures: Vec<u32> = Vec::new();
        while states.len() < n
            invariant
                states@.len() <= n,
                failures@.len() == states@.len(),
                forall|i: int| 0 <= i < states@.len() ==> (#[trigger] states@[i]) is Idle,
                forall|i: int| 0 <= i < failures@.len() ==> #[trigger] failures@[i] == 0,
            decreases n - states@.len(),
        {
            states.push(StepState::Idle);
            failures.push(0);
        }
        let r = Run {
            id,
            definition_id,
            definition_version,
            state: WorkflowState::Pending,
            context,
            states,
            failures,
            attempts: Vec::new(),
            queue: Vec::new(),
            dispatched: Vec::new(),
            history: Vec::new(),
            failure: None,
        };
        assert(history_ok(r.history@, r.states@));
        r
    }

    /// Starts a `Pending` run: it is `Running`, and its entry point is `Queued`.
    /// A run in another state stays as it is.
    pub fn start(&mut self, plan: &Plan)
        requires
            old(self).wf(plan.steps@.len() as int),
            plan.wf(),
        ensures
            final(self).wf(plan.steps@.len() as int),
            final(self).started(*old(self), *plan),
    {
        if self.state != WorkflowState::Pending {
            return ;
        }
        proof {
            lemma_sole(self.states@, plan.entry as int, StepState::Queued);
        }
        enqueue(&mut self.states, &mut self.history, &mut self.queue, plan.entry);
        self.state = WorkflowState::Running;
        assert(self.queue@ =~= seq![plan.entry]);
        assert(self.history@ =~= seq![
            Event { step: plan.entry, from: StepState::Idle, to: StepState::Queued },
        ]);
    }

    /// Ends the run in `state`.
    fn end(&mut self, state: WorkflowState, failure: Option<EngineError>)
        requires
            old(self).wf(old(self).states@.len() as int),
            state.terminal(),
            failure is Some <==> state is Failed,
        ensures
            final(self).wf(old(self).states@.len() as int),
            final(self).ended(*old(self), state, old(self).states@, old(self).history@),
            final(self).failure == failure,
            final(self).same_binding(*old(self)),
            final(self).context == old(self).context,
            final(self).failures == old(self).failures,
            final(self).attempts == old(self).attempts,
            final(self).dispatched == old(self).dispatched,
    {
        finalize(&mut self.states, &mut self.history);
        self.state = state;
        self.failure = failure;
        proof {
            lemma_queue_keep(self.queue@, old(self).states@, self.states@);
            lemma_finalized_one_at_a_time(old(self).states@);
        }
    }

    /// The recorded executions of `step`, in order.
    pub fn attempts_of(&self, step: usize) -> (r: Vec<Attempt>)
        ensures
            r@ == attempts_at(self.attempts@, step, self.attempts@.len() as int),
    {
        let mut found: Vec<Attempt> = Vec::new();
        let mut i: usize = 0;
        while i < self.attempts.len()
            invariant
                i <= self.attempts@.len(),
                found@ == attempts_at(self.attempts@, step, i as int),
            decreases self.attempts@.len() - i,
        {
            let a = &self.attempts[i];
            if a.step == step {
                let cause = match &a.cause {
                    Some(c) => Some(c.clone()),
                    None => None,
                };
                found.push(Attempt { step, succeeded: a.succeeded, cause });
            }
            i += 1;
        }
        found
    }

    /// What a query for the run's state answers: the run, with each step
    /// under its id.
    pub fn snapshot(&self, definition: &WorkflowDefinition) -> (r: RunSnapshot)
        requires
            self.states@.len() == definition.steps@.len(),
        ensures
            r.shows(*self, *definition),
    {
        let mut steps: Vec<StepSnapshot> = Vec::new();
        let mut i: usize = 0;
        while i < self.states.len()
            invariant
                i <= self.states@.len(),
                self.states@.len() == definition.steps@.len(),
                steps@.len() == i,
                forall|k: int|
                    0 <= k < i ==> (#[trigger] steps@[k]).shows(*self, *definition, k),
            decreases self.states@.len() - i,
        {
            steps.push(
                StepSnapshot {
                    id: definition.steps[i].id.clone(),
                    state: self.states[i],
                    attempts: self.attempts_of(i),
                },
            );
            i += 1;
        }
        RunSnapshot {
            run_id: self.id,
            definition_id: self.definition_id.clone(),
            definition_version: self.definition_version,
            state: self.state,
            failure: match &self.failure {
                Some(e) => Some(e.message()),
                None => None,
            },
            steps,
            context: self.context.duplicate(),
        }
    }

    /// Whether some step is running or waits for its retry.
    fn is_busy(&self) -> (r: bool)
        ensures
            r == self.busy(),
    {
        let mut i: usize = 0;
        while i < self.states.len()
            invariant
                i <= self.states@.len(),
                forall|j: int|
                    0 <= j < i ==> !((#[trigger] self.states@[j]) is Running
                        || self.states@[j] is Failed),
            decreases self.states@.len() - i,
        {
            let s = self.states[i];
            if s == StepState::Running || s == StepState::Failed {
                return true;
            }
            i += 1;
        }
        false
    }

    /// Everything but the run's state, the states of its steps, its queue
    /// and its history is as it was.
    pub open spec fn same_record(&self, before: Run) -> bool {
        &&& self.same_binding(before)
        &&& self.context == before.context
        &&& self.failures == before.failures
        &&& self.attempts == before.attempts
        &&& self.dispatched == before.dispatched
        &&& self.failure == before.failure
    }

    /// What [`Run::start`] makes of the run `before`.
    pub open spec fn started(&self, before: Run, plan: Plan) -> bool {
        if before.state is Pending {
            &&& self.state is Running
            &&& self.states@ == before.states@.update(plan.entry as int, StepState::Queued)
            &&& self.queue@ == seq![plan.entry]
            &&& self.history@ == seq![
                Event { step: plan.entry, from: StepState::Idle, to: StepState::Queued },
            ]
            &&& self.same_record(before)
        } else {
            *self == before
        }
    }

    /// What [`Run::next_action`] makes of the run `before`, and what it answers.
    pub open spec fn acted(&self, before: Run, budget: u64, action: Action) -> bool {
        if !(before.state is Running) {
            &&& *self == before
            &&& action == if before.state.terminal() {
                Action::Finished
            } else {
                Action::Wait
            }
        } else if before.queue@.len() == 0 {
            if before.busy() {
                *self == before && action == Action::Wait
            } else {
                &&& action == Action::Finished
                &&& self.ended(before, WorkflowState::Completed, before.states@, before.history@)
                &&& self.same_record(before)
            }
        } else if before.dispatched@.len() >= budget {
            &&& action == Action::Finished
            &&& self.ended(before, WorkflowState::Failed, before.states@, before.history@)
            &&& self.failure == Some(EngineError::BudgetExceeded)
            &&& self.same_binding(before)
            &&& self.context == before.context
            &&& self.failures == before.failures
            &&& self.attempts == before.attempts
            &&& self.dispatched == before.dispatched
        } else {
            let s = before.queue@[0];
            &&& action == Action::Invoke(s)
            &&& self.state is Running
            &&& self.states@ == before.states@.update(s as int, StepState::Running)
            &&& self.queue@ == before.queue@.drop_first()
            &&& self.dispatched@ == before.dispatched@.push(s)
            &&& self.history@ == before.history@.push(
                Event { step: s, from: StepState::Queued, to: StepState::Running },
            )
            &&& self.same_binding(before)
            &&& self.context == before.context
            &&& self.failures == before.failures
            &&& self.attempts == before.attempts
            &&& self.failure == before.failure
        }
    }

    /// What [`Run::retry_due`] makes of the run `before`, and what it answers.
    pub open spec fn requeued(&self, before: Run, step: usize, r: Result<(), EngineError>) -> bool {
        if before.state is Running && step < before.states@.len()
            && before.states@[step as int] is Failed {
            &&& r is Ok
            &&& self.state == before.state
            &&& self.states@ == before.states@.update(step as int, StepState::Queued)
            &&& self.queue@ == before.queue@.push(step)
            &&& self.history@ == before.history@.push(
                Event { step, from: StepState::Failed, to: StepState::Queued },
            )
            &&& self.same_record(before)
        } else {
            r == Err::<(), EngineError>(EngineError::Conflict) && *self == before
        }
    }

    /// What [`Run::cancel`] makes of the run `before`, and what it answers.
    pub open spec fn cancelled(&self, before: Run, r: bool) -> bool {
        &&& r == (before.state is Pending || before.state is Running)
        &&& if r {
            &&& self.ended(before, WorkflowState::Cancelled, before.states@, before.history@)
            &&& self.same_record(before)
        } else {
            *self == before
        }
    }

    /// What [`Run::record_outcome`] makes of the run `before`, and what it answers.
    pub open spec fn outcome_taken(
        &self,
        before: Run,
        plan: Plan,
        step: usize,
        outcome: Outcome,
        fallback: RetryPolicy,
        r: Result<Followup, EngineError>,
    ) -> bool {
        &&& self.same_binding(before)
        &&& if before.awaits(step) {
            r matches Ok(followup) && self.reported(before, plan, step, outcome, fallback, followup)
        } else {
            r == Err::<Followup, EngineError>(EngineError::Conflict) && *self == before
        }
    }

    /// An attempt at `step` was added to the log, and nothing was dispatched.
    pub open spec fn attempt_logged(
        &self,
        before: Run,
        step: usize,
        succeeded: bool,
        cause: Option<Seq<char>>,
    ) -> bool {
        let n = before.attempts@.len() as int;
        &&& self.attempts@.len() == n + 1
        &&& forall|i: int| 0 <= i < n ==> self.attempts@[i] == before.attempts@[i]
        &&& self.attempts@[n].step == step
        &&& self.attempts@[n].succeeded == succeeded
        &&& text_view(self.attempts@[n].cause) == cause
        &&& self.dispatched == before.dispatched
    }

    /// An outcome that came after the run had ended: the step is settled,
    /// and the run is not reopened.
    pub open spec fn settled_late(&self, before: Run, step: usize, to: StepState) -> bool {
        &&& self.state == before.state
        &&& self.failure == before.failure
        &&& self.context == before.context
        &&& self.queue == before.queue
        &&& self.failures == before.failures
        &&& self.states@ == before.states@.update(step as int, to)
        &&& self.history@ == before.history@.push(
            Event { step, from: StepState::Running, to },
        )
    }

    /// A success in a `Running` run: the fields are merged into the context,
    /// and the first transition that fires decides how the run goes on.
    pub open spec fn advanced(
        &self,
        before: Run,
        plan: Plan,
        step: usize,
        fields: Map<Seq<char>, Datum>,
        followup: Followup,
    ) -> bool {
        let s1 = before.states@.update(step as int, StepState::Succeeded);
        let h1 = before.history@.push(
            Event { step, from: StepState::Running, to: StepState::Succeeded },
        );
        &&& self.context@ == before.context@.union_prefer_right(fields)
        &&& self.failures@ == before.failures@.update(step as int, 0)
        &&& match evaluation(plan.steps@[step as int], fields, before.context@) {
            Evaluation::Next(t) => {
                &&& self.state is Running
                &&& self.failure is None
                &&& self.states@ == queued_states(s1, t as int)
                &&& self.history@ == queued_history(h1, s1, t as int)
                &&& self.queue@ == queued_queue(before.queue@, s1, t as int)
                &&& followup == Followup::Continue
            },
            Evaluation::Terminal => {
                &&& self.ended(before, WorkflowState::Completed, s1, h1)
                &&& self.failure is None
                &&& followup == Followup::Finished
            },
            Evaluation::NoMatch => {
                &&& self.ended(before, WorkflowState::Failed, s1, h1)
                &&& self.failure == Some(EngineError::InvalidTransition)
                &&& followup == Followup::Finished
            },
        }
    }

    /// A failure in a `Running` run: while the step's policy allows, the step
    /// waits for its retry; after that the run fails, for the step's cause.
    pub open spec fn set_back(
        &self,
        before: Run,
        policy: RetryPolicy,
        step: usize,
        cause: Seq<char>,
        followup: Followup,
    ) -> bool {
        let s1 = before.states@.update(step as int, StepState::Failed);
        let h1 = before.history@.push(
            Event { step, from: StepState::Running, to: StepState::Failed },
        );
        let f = one_more(before.failures@[step as int]);
        &&& self.context == before.context
        &&& self.failures@ == before.failures@.update(step as int, f)
        &&& if f < policy.max_attempts {
            &&& self.state is Running
            &&& self.failure is None
            &&& self.states@ == s1
            &&& self.history@ == h1
            &&& self.queue@ == before.queue@
            &&& followup == Followup::RetryAfter(backoff(policy, f as nat) as u64)
        } else {
            &&& self.ended(before, WorkflowState::Failed, s1, h1)
            &&& (self.failure matches Some(EngineError::Capability(c)) && c@ == cause)
            &&& followup == Followup::Finished
        }
    }

    /// What the report of `outcome` for `step` has made of the run `before`.
    pub open spec fn reported(
        &self,
        before: Run,
        plan: Plan,
        step: usize,
        outcome: Outcome,
        fallback: RetryPolicy,
        followup: Followup,
    ) -> bool {
        &&& self.attempt_logged(before, step, outcome is Succeeded, failure_text(outcome))
        &&& if !(before.state is Running) {
            self.settled_late(before, step, settled(outcome)) && followup == Followup::Finished
        } else {
            match outcome {
                Outcome::Succeeded(fields) => self.advanced(before, plan, step, fields@, followup),
                _ => self.set_back(
                    before,
                    policy_of(plan, step as int, fallback),
                    step,
                    failure_text(outcome)->0,
                    followup,
                ),
            }
        }
    }

    /// Says what is to be done next, and makes the run ready for it.
    ///
    /// In a `Running` run the oldest queued step is dispatched: it becomes
    /// `Running`. Where `budget` steps were dispatched already, the run fails
    /// instead. With nothing queued and nothing outstanding the run is
    /// `Completed`. A run that is not `Running` stays as it is.
    pub fn next_action(&mut self, plan: &Plan, budget: u64) -> (action: Action)
        requires
            old(self).wf(plan.steps@.len() as int),
            plan.wf(),
        ensures
            final(self).wf(plan.steps@.len() as int),
            final(self).acted(*old(self), budget, action),
    {
        if self.state != WorkflowState::Running {
            return if self.state.is_terminal() {
                Action::Finished
            } else {
                Action::Wait
            };
        }
        if self.queue.len() == 0 {
            if self.is_busy() {
                return Action::Wait;
            }
            self.end(WorkflowState::Completed, None);
            return Action::Finished;
        }
        if self.dispatched.len() as u64 >= budget {
            self.end(WorkflowState::Failed, Some(EngineError::BudgetExceeded));
            return Action::Finished;
        }
        proof {
            lemma_dequeue(self.queue@, self.states@);
            assert(under_way(self.states@[self.queue@[0] as int]));
            lemma_sole(self.states@, self.queue@[0] as int, StepState::Running);
        }
        let s = self.queue.remove(0);
        assert(self.queue@ =~= old(self).queue@.drop_first());
        shift(&mut self.states, &mut self.history, s, StepState::Running);
        self.dispatched.push(s);
        Action::Invoke(s)
    }
    /// Records a failure of `step`, for `cause`.
    fn record_failure(&mut self, plan: &Plan, step: usize, cause: String, fallback: RetryPolicy) -> (r:
        Followup)
        requires
            old(self).wf(plan.steps@.len() as int),
            old(self).awaits(step),
        ensures
            final(self).wf(plan.steps@.len() as int),
            final(self).same_binding(*old(self)),
            final(self).attempt_logged(*old(self), step, false, Some(cause@)),
            !(old(self).state is Running) ==> final(self).settled_late(
                *old(self),
                step,
                StepState::Failed,
            ) && r == Followup::Finished,
            old(self).state is Running ==> final(self).set_back(
                *old(self),
                policy_of(*plan, step as int, fallback),
                step,
                cause@,
                r,
            ),
    {
        self.attempts.push(Attempt { step, succeeded: false, cause: Some(cause.clone()) });
        shift(&mut self.states, &mut self.history, step, StepState::Failed);
        proof {
            lemma_queue_keep(self.queue@, old(self).states@, self.states@);
            assert(under_way(old(self).states@[step as int]));
            lemma_sole(old(self).states@, step as int, StepState::Failed);
        }
        if self.state != WorkflowState::Running {
            return Followup::Finished;
        }
        let seen = self.failures[step];
        let f: u32 = if seen < u32::MAX {
            seen + 1
        } else {
            seen
        };
        self.failures.set(step, f);
        let policy = match plan.steps[step].retry {
            Some(p) => p,
            None => fallback,
        };
        if policy.allows_retry(f) {
            Followup::RetryAfter(policy.delay_after(f))
        } else {
            self.end(WorkflowState::Failed, Some(EngineError::Capability(cause)));
            Followup::Finished
        }
    }

    /// Takes the outcome of the execution of `step`.
    ///
    /// The attempt is recorded. On success the step is `Succeeded`, the
    /// outcome's fields are merged into the context, and the first of the
    /// step's transitions that fires decides: its target is queued (unless
    /// it is queued or running already), or the run is `Completed`; where
    /// none fires the run is `Failed`. On failure or timeout the step is
    /// `Failed`; it waits for its retry while its policy allows, and after
    /// that the run is `Failed`. An outcome for a step that is not `Running`
    /// is a conflict and changes nothing. An outcome that comes after the
    /// run has ended settles the step and nothing else.
    pub fn record_outcome(
        &mut self,
        plan: &Plan,
        step: usize,
        outcome: Outcome,
        fallback: RetryPolicy,
    ) -> (r: Result<Followup, EngineError>)
        requires
            old(self).wf(plan.steps@.len() as int),
            plan.wf(),
        ensures
            final(self).wf(plan.steps@.len() as int),
            final(self).outcome_taken(*old(self), *plan, step, outcome, fallback, r),
    {
        let n = self.states.len();
        if step >= n || self.states[step] != StepState::Running {
            return Err(EngineError::Conflict);
        }
        match outcome {
            Outcome::Succeeded(fields) => {
                self.attempts.push(Attempt { step, succeeded: true, cause: None });
                shift(&mut self.states, &mut self.history, step, StepState::Succeeded);
                proof {
                    lemma_queue_keep(self.queue@, old(self).states@, self.states@);
                    assert(under_way(old(self).states@[step as int]));
                    lemma_sole(old(self).states@, step as int, StepState::Succeeded);
                }
                if self.state != WorkflowState::Running {
                    return Ok(Followup::Finished);
                }
                self.failures.set(step, 0);
                let next = evaluate(&plan.steps[step], &fields, &self.context);
                self.context.merge(fields);
                match next {
                    Evaluation::Next(t) => {
                        proof {
                            let arms = plan.steps@[step as int].arms@;
                            lemma_selected_is_target(
                                arms,
                                scope(fields@, old(self).context@),
                                0,
                            );
                            let k = choose|k: int|
                                0 <= k < arms.len() && (#[trigger] arms[k]).target
                                    == Target::Step(t);
                            assert(graph(plan.steps@)[step as int][k] == Target::Step(t));
                            lemma_any_may_begin(self.states@, step as int, t as int);
                            lemma_sole(self.states@, t as int, StepState::Queued);
                        }
                        enqueue(&mut self.states, &mut self.history, &mut self.queue, t);
                        Ok(Followup::Continue)
                    },
                    Evaluation::Terminal => {
                        self.end(WorkflowState::Completed, None);
                        Ok(Followup::Finished)
                    },
                    Evaluation::NoMatch => {
                        self.end(WorkflowState::Failed, Some(EngineError::InvalidTransition));
                        Ok(Followup::Finished)
                    },
                }
            },
            Outcome::Failed(cause) => Ok(self.record_failure(plan, step, cause, fallback)),
            Outcome::TimedOut => Ok(
                self.record_failure(plan, step, "deadline exceeded".to_owned(), fallback),
            ),
        }
    }

    /// Queues a step again whose wait before a retry is over. Where the run
    /// is not `Running` or the step is not `Failed`, this is a conflict and
    /// changes nothing.
    pub fn retry_due(&mut self, step: usize) -> (r: Result<(), EngineError>)
        requires
            old(self).wf(old(self).states@.len() as int),
        ensures
            final(self).wf(old(self).states@.len() as int),
            final(self).requeued(*old(self), step, r),
    {
        if self.state != WorkflowState::Running || step >= self.states.len() || self.states[step]
            != StepState::Failed {
            return Err(EngineError::Conflict);
        }
        proof {
            assert(under_way(self.states@[step as int]));
            lemma_sole(self.states@, step as int, StepState::Queued);
        }
        enqueue(&mut self.states, &mut self.history, &mut self.queue, step);
        Ok(())
    }

    /// Cancels a run that is `Pending` or `Running`; a run that has ended
    /// stays as it is. Says whether the run was cancelled by this call.
    pub fn cancel(&mut self) -> (r: bool)
        requires
            old(self).wf(old(self).states@.len() as int),
        ensures
            final(self).wf(old(self).states@.len() as int),
            final(self).cancelled(*old(self), r),
    {
        if self.state != WorkflowState::Pending && self.state != WorkflowState::Running {
            return false;
        }
        self.end(WorkflowState::Cancelled, None);
        true
    }
}

/// No step ever regresses: every move in a run's history starts where the
/// moves before it left the step, and either takes the step further along
/// `Idle → Queued → Running → {Succeeded | Failed | Skipped}` or queues a
/// step again that has succeeded or failed (a retry, or a transition that
/// leads back to it).
pub proof fn lemma_steps_never_regress(run: Run, n: int, k: int)
    requires
        run.wf(n),
        0 <= k < run.history@.len(),
    ensures
        ({
            let e = run.history@[k];
            &&& e.step < n
            &&& e.from == state_after(run.history@.take(k), e.step as int)
            &&& (e.from.rank() < e.to.rank() || e.from.reenters(e.to))
        }),
        forall|i: int| 0 <= i < n ==> state_after(run.history@, i) == #[trigger] run.states@[i],
{
    assert(event_ok(run.history@, k, n));
}

/// A step that succeeds in a `Running` run, and whose first transition that
/// fires leads to the terminal marker, completes the run.
pub proof fn lemma_success_at_terminal_completes(
    after: Run,
    before: Run,
    plan: Plan,
    step: usize,
    fields: Context,
    fallback: RetryPolicy,
    followup: Followup,
    k: int,
)
    requires
        before.state is Running,
        before.awaits(step),
        after.reported(before, plan, step, Outcome::Succeeded(fields), fallback, followup),
        0 <= k < plan.steps@[step as int].arms@.len(),
        plan.steps@[step as int].arms@[k].target is Terminal,
        fires(plan.steps@[step as int].arms@[k], scope(fields@, before.context@)),
        forall|m: int|
            0 <= m < k ==> !fires(
                #[trigger] plan.steps@[step as int].arms@[m],
                scope(fields@, before.context@),
            ),
    ensures
        after.state is Completed,
        after.failure is None,
        followup == Followup::Finished,
{
    lemma_first_match(plan.steps@[step as int].arms@, scope(fields@, before.context@), 0, k);
}

/// A step that succeeds in a `Running` run, and of whose transitions none
/// fires, fails the run, for the cause "no transition matched".
pub proof fn lemma_no_match_fails(
    after: Run,
    before: Run,
    plan: Plan,
    step: usize,
    fields: Context,
    fallback: RetryPolicy,
    followup: Followup,
)
    requires
        before.state is Running,
        before.awaits(step),
        after.reported(before, plan, step, Outcome::Succeeded(fields), fallback, followup),
        forall|m: int|
            0 <= m < plan.steps@[step as int].arms@.len() ==> !fires(
                #[trigger] plan.steps@[step as int].arms@[m],
                scope(fields@, before.context@),
            ),
    ensures
        after.state is Failed,
        after.failure == Some(EngineError::InvalidTransition),
        after.failure->0.text() == "no transition matched"@,
        followup == Followup::Finished,
{
    lemma_no_match(plan.steps@[step as int].arms@, scope(fields@, before.context@), 0);
}

/// A step that fails on its first two executions and succeeds on the third,
/// under a policy of three attempts, in a run that is not cancelled and
/// whose budget allows the two further dispatches: each failure is answered
/// by a wait, after which the step is the one to be run again; the log
/// gains three attempts at the step, failed, failed and succeeded, in this
/// order; and the success is taken exactly as a success at the first
/// execution would have been: over the same context, states and queue.
pub proof fn lemma_third_attempt_succeeds(
    runs: Seq<Run>,
    plan: Plan,
    step: usize,
    fallback: RetryPolicy,
    budget: u64,
    first: Outcome,
    second: Outcome,
    fields: Context,
    waits: Seq<Result<Followup, EngineError>>,
    due: Seq<Result<(), EngineError>>,
    actions: Seq<Action>,
    last: Result<Followup, EngineError>,
)
    requires
        runs.len() == 8,
        waits.len() == 2,
        due.len() == 2,
        actions.len() == 2,
        plan.wf(),
        runs[0].wf(plan.steps@.len() as int),
        runs[0].state is Running,
        runs[0].awaits(step),
        runs[0].failures@[step as int] == 0,
        policy_of(plan, step as int, fallback).max_attempts == 3,
        !(first is Succeeded),
        !(second is Succeeded),
        runs[0].dispatched@.len() + 2 <= budget,
        runs[1].outcome_taken(runs[0], plan, step, first, fallback, waits[0]),
        runs[2].requeued(runs[1], step, due[0]),
        runs[3].acted(runs[2], budget, actions[0]),
        runs[4].outcome_taken(runs[3], plan, step, second, fallback, waits[1]),
        runs[5].requeued(runs[4], step, due[1]),
        runs[6].acted(runs[5], budget, actions[1]),
        runs[7].outcome_taken(runs[6], plan, step, Outcome::Succeeded(fields), fallback, last),
    ensures
        waits[0] == Ok::<Followup, EngineError>(
            Followup::RetryAfter(backoff(policy_of(plan, step as int, fallback), 1) as u64),
        ),
        waits[1] == Ok::<Followup, EngineError>(
            Followup::RetryAfter(backoff(policy_of(plan, step as int, fallback), 2) as u64),
        ),
        due[0] is Ok && due[1] is Ok,
        actions[0] == Action::Invoke(step) && actions[1] == Action::Invoke(step),
        ({
            let n = runs[0].attempts@.len() as int;
            let log = runs[7].attempts@;
            &&& log.len() == n + 3
            &&& log.take(n) == runs[0].attempts@
            &&& log[n].step == step && !log[n].succeeded
            &&& text_view(log[n].cause) == failure_text(first)
            &&& log[n + 1].step == step && !log[n + 1].succeeded
            &&& text_view(log[n + 1].cause) == failure_text(second)
            &&& log[n + 2].step == step && log[n + 2].succeeded
        }),
        runs[6].state is Running,
        runs[6].states@ == runs[0].states@,
        runs[6].queue@ == runs[0].queue@,
        runs[6].context == runs[0].context,
        last matches Ok(followup) && runs[7].advanced(runs[6], plan, step, fields@, followup),
        runs[7].context@ == runs[0].context@.union_prefer_right(fields@),
        runs[7].failures@[step as int] == 0,
        !(runs[7].state is Failed) || evaluation(
            plan.steps@[step as int],
            fields@,
            runs[0].context@,
        ) is NoMatch,
        evaluation(plan.steps@[step as int], fields@, runs[0].context@) != Evaluation::Next(step)
            ==> runs[7].states@[step as int] is Succeeded,
{
    let s = step as int;
    lemma_nothing_queued(runs[0].queue@, runs[0].states@, s);
    // the first failure
    assert(runs[1].states@ == runs[0].states@.update(s, StepState::Failed));
    assert(runs[1].queue@ == runs[0].queue@);
    assert(runs[1].failures@[s] == 1);
    // its retry falls due and is dispatched
    assert(runs[2].queue@ =~= seq![step]);
    assert(runs[3].states@[s] is Running);
    assert(runs[3].queue@ =~= Seq::<usize>::empty());
    // the second failure
    assert(runs[4].failures@[s] == 2);
    assert(runs[4].states@[s] is Failed);
    assert(runs[5].queue@ =~= seq![step]);
    assert(runs[6].states@ =~= runs[0].states@);
    assert(runs[6].queue@ =~= runs[0].queue@);
    // the log
    let n = runs[0].attempts@.len() as int;
    assert(runs[7].attempts@.take(n) =~= runs[0].attempts@);
    // the step after its success
    let settled = runs[6].states@.update(s, StepState::Succeeded);
    match evaluation(plan.steps@[s], fields@, runs[0].context@) {
        Evaluation::Next(t) => {
            let arms = plan.steps@[s].arms@;
            lemma_selected_is_target(arms, scope(fields@, runs[0].context@), 0);
            let k = choose|k: int|
                0 <= k < arms.len() && (#[trigger] arms[k]).target == Target::Step(t);
            assert(graph(plan.steps@)[s][k] == Target::Step(t));
            if t != step {
                assert(queued_states(settled, t as int)[s] is Succeeded);
            }
        },
        _ => {
            assert(finalized(settled)[s] is Succeeded);
        },
    }
}

/// Cancelling a run that has ended changes nothing; so cancelling twice is
/// cancelling once.
pub proof fn lemma_cancel_is_idempotent(before: Run, once: Run, twice: Run, first: bool, second: bool)
    requires
        once.cancelled(before, first),
        twice.cancelled(once, second),
    ensures
        twice == once,
        !second,
        before.state.terminal() ==> once == before && !first,
{
}

} // verus!
