use staterail_engine::{
    evaluate, validate, Action, Attempt, Context, Engine, EngineConfig, EngineError, Evaluation,
    Event, Followup, Outcome, Registry, RetryPolicy, Run, Scalar, Step, StepState, Transition,
    WorkflowDefinition, WorkflowState, TERMINAL,
};

fn arm(to: &str, condition: Option<&str>) -> Transition {
    Transition { to: to.to_string(), condition: condition.map(|c| c.to_string()) }
}

fn step(id: &str, transitions: Vec<Transition>) -> Step {
    Step {
        id: id.to_string(),
        kind: "noop".to_string(),
        config: serde_json::Value::Null,
        transitions,
        retry: None,
    }
}

fn definition(id: &str, steps: Vec<Step>) -> WorkflowDefinition {
    WorkflowDefinition {
        id: id.to_string(),
        name: id.to_string(),
        version: 0,
        steps,
        step_budget: None,
    }
}

fn branching() -> WorkflowDefinition {
    definition(
        "branching",
        vec![
            step("A", vec![arm("B", None)]),
            step("B", vec![arm("C", Some("x>0")), arm("D", None)]),
            step("C", vec![arm(TERMINAL, None)]),
            step("D", vec![arm(TERMINAL, None)]),
        ],
    )
}

fn looping() -> WorkflowDefinition {
    let mut def = definition(
        "looping",
        vec![
            step("A", vec![arm("B", None)]),
            step("B", vec![arm(TERMINAL, Some("x > 100")), arm("B", None)]),
        ],
    );
    def.step_budget = Some(5);
    def
}

fn single(retry: Option<RetryPolicy>) -> WorkflowDefinition {
    let mut def = definition(
        "single",
        vec![step("A", vec![arm("B", None)]), step("B", vec![arm(TERMINAL, None)])],
    );
    def.steps[0].retry = retry;
    def
}

fn fields(entries: Vec<(&str, Scalar)>) -> Context {
    let mut c = Context::new();
    for (name, value) in entries {
        c.set(name.to_string(), value);
    }
    c
}

fn success() -> Outcome {
    Outcome::Succeeded(Context::new())
}

fn failure(cause: &str) -> Outcome {
    Outcome::Failed(cause.to_string())
}

fn engine_with(def: WorkflowDefinition) -> (Engine, u64) {
    let mut engine = Engine::new();
    let id = def.id.clone();
    engine.submit_definition(def).unwrap();
    let run = engine.start_run(&id, None, Context::new()).unwrap();
    (engine, run)
}

/// Drives a run to its end; `script` says what each dispatch comes to.
fn drive(engine: &mut Engine, run: u64, script: &mut dyn FnMut(usize, usize) -> Outcome) {
    let mut dispatches = 0;
    loop {
        match engine.next_action(run).unwrap() {
            Action::Invoke(step) => {
                dispatches += 1;
                match engine.report_outcome(run, step, script(step, dispatches)).unwrap() {
                    Followup::RetryAfter(_) => engine.retry_due(run, step).unwrap(),
                    Followup::Continue | Followup::Finished => {}
                }
            }
            Action::Finished => return,
            other => panic!("unexpected action {:?}", other),
        }
        assert!(under_way(engine.get_run_state(run).unwrap()) <= 1);
        assert!(dispatches < 1000);
    }
}

/// How many steps wait for dispatch, run, or have failed.
fn under_way(run: &Run) -> usize {
    run.states
        .iter()
        .filter(|s| matches!(s, StepState::Queued | StepState::Running | StepState::Failed))
        .count()
}

fn legal_move(from: StepState, to: StepState) -> bool {
    matches!(
        (from, to),
        (StepState::Idle, StepState::Queued)
            | (StepState::Queued, StepState::Running)
            | (StepState::Running, StepState::Succeeded)
            | (StepState::Running, StepState::Failed)
            | (StepState::Idle, StepState::Skipped)
            | (StepState::Failed, StepState::Queued)
            | (StepState::Succeeded, StepState::Queued)
    )
}

fn assert_history_is_legal(run: &Run) {
    let mut states = vec![StepState::Idle; run.states.len()];
    for e in &run.history {
        assert_eq!(states[e.step], e.from, "{:?}", e);
        assert!(legal_move(e.from, e.to), "{:?}", e);
        states[e.step] = e.to;
    }
    assert_eq!(states, run.states);
}

#[test]
fn branch_taken_when_condition_holds() {
    let (mut engine, run) = engine_with(branching());
    drive(&mut engine, run, &mut |step, _| {
        if step == 0 {
            Outcome::Succeeded(fields(vec![("x", Scalar::Int(5))]))
        } else {
            success()
        }
    });
    let r = engine.get_run_state(run).unwrap();
    assert_eq!(r.dispatched, vec![0, 1, 2]);
    assert_eq!(r.state, WorkflowState::Completed);
    assert_eq!(
        r.states,
        vec![
            StepState::Succeeded,
            StepState::Succeeded,
            StepState::Succeeded,
            StepState::Skipped
        ]
    );
    assert_eq!(r.failure, None);
    assert_eq!(r.context.get("x"), Some(&Scalar::Int(5)));
    assert_eq!(r.attempts.len(), 3);
    assert_history_is_legal(r);
}

#[test]
fn default_taken_when_condition_fails() {
    let (mut engine, run) = engine_with(branching());
    drive(&mut engine, run, &mut |step, _| {
        if step == 0 {
            Outcome::Succeeded(fields(vec![("x", Scalar::Int(-1))]))
        } else {
            success()
        }
    });
    let r = engine.get_run_state(run).unwrap();
    assert_eq!(r.dispatched, vec![0, 1, 3]);
    assert_eq!(r.state, WorkflowState::Completed);
    assert_eq!(
        r.states,
        vec![
            StepState::Succeeded,
            StepState::Succeeded,
            StepState::Skipped,
            StepState::Succeeded
        ]
    );
    assert_history_is_legal(r);
}

#[test]
fn step_retried_twice_then_succeeds() {
    let policy = RetryPolicy { max_attempts: 3, base_delay_ms: 10, max_delay_ms: 1000 };
    let (mut engine, run) = engine_with(single(Some(policy)));
    assert_eq!(engine.next_action(run), Ok(Action::Invoke(0)));
    assert_eq!(
        engine.report_outcome(run, 0, failure("first")),
        Ok(Followup::RetryAfter(10))
    );
    assert_eq!(engine.get_run_state(run).unwrap().states[0], StepState::Failed);
    assert_eq!(engine.next_action(run), Ok(Action::Wait));
    assert_eq!(engine.retry_due(run, 0), Ok(()));
    assert_eq!(engine.get_run_state(run).unwrap().states[0], StepState::Queued);
    assert_eq!(engine.next_action(run), Ok(Action::Invoke(0)));
    assert_eq!(
        engine.report_outcome(run, 0, Outcome::TimedOut),
        Ok(Followup::RetryAfter(20))
    );
    assert_eq!(engine.retry_due(run, 0), Ok(()));
    assert_eq!(engine.next_action(run), Ok(Action::Invoke(0)));
    assert_eq!(under_way(engine.get_run_state(run).unwrap()), 1);
    assert!(engine.get_run_state(run).unwrap().queue.is_empty());
    assert_eq!(engine.report_outcome(run, 0, success()), Ok(Followup::Continue));
    assert_eq!(engine.next_action(run), Ok(Action::Invoke(1)));
    assert_eq!(engine.report_outcome(run, 1, success()), Ok(Followup::Finished));
    assert_eq!(engine.next_action(run), Ok(Action::Finished));
    let r = engine.get_run_state(run).unwrap();
    assert_eq!(r.state, WorkflowState::Completed);
    assert_eq!(r.states, vec![StepState::Succeeded, StepState::Succeeded]);
    assert_eq!(r.attempts_of(0).len(), 3);
    assert_eq!(r.attempts_of(0), r.attempts[..3].to_vec());
    assert_eq!(r.attempts_of(1), r.attempts[3..].to_vec());
    assert_eq!(r.attempts_of(2), Vec::new());
    assert_eq!(
        r.attempts,
        vec![
            Attempt { step: 0, succeeded: false, cause: Some("first".to_string()) },
            Attempt { step: 0, succeeded: false, cause: Some("deadline exceeded".to_string()) },
            Attempt { step: 0, succeeded: true, cause: None },
            Attempt { step: 1, succeeded: true, cause: None },
        ]
    );
    assert_eq!(r.failures, vec![0, 0]);
    assert_eq!(r.dispatched, vec![0, 0, 0, 1]);
    assert_history_is_legal(r);
}

#[test]
fn snapshot_shows_each_step_under_its_id() {
    let policy = RetryPolicy { max_attempts: 3, base_delay_ms: 10, max_delay_ms: 1000 };
    let mut def = branching();
    def.steps[1].retry = Some(policy);
    let ctx = fields(vec![("who", Scalar::Text("me".to_string()))]);
    let mut engine = Engine::new();
    engine.submit_definition(def).unwrap();
    let run = engine.start_run("branching", None, ctx).unwrap();
    let fresh = engine.run_snapshot(run).unwrap();
    assert_eq!(fresh.state, WorkflowState::Pending);
    assert_eq!(fresh.steps.len(), 4);
    assert!(fresh.steps.iter().all(|s| s.state == StepState::Idle && s.attempts.is_empty()));
    drive(&mut engine, run, &mut |step, n| match (step, n) {
        (0, _) => Outcome::Succeeded(fields(vec![("x", Scalar::Int(-1))])),
        (1, 2) => failure("flaky"),
        _ => success(),
    });
    let shot = engine.run_snapshot(run).unwrap();
    assert_eq!(shot.run_id, run);
    assert_eq!(shot.definition_id, "branching");
    assert_eq!(shot.definition_version, 1);
    assert_eq!(shot.state, WorkflowState::Completed);
    assert_eq!(shot.failure, None);
    assert_eq!(shot.context, engine.get_run_state(run).unwrap().context);
    assert_eq!(shot.context.get("who"), Some(&Scalar::Text("me".to_string())));
    assert_eq!(shot.context.get("x"), Some(&Scalar::Int(-1)));
    let ids: Vec<&str> = shot.steps.iter().map(|s| s.id.as_str()).collect();
    assert_eq!(ids, vec!["A", "B", "C", "D"]);
    let states: Vec<StepState> = shot.steps.iter().map(|s| s.state).collect();
    assert_eq!(
        states,
        vec![
            StepState::Succeeded,
            StepState::Succeeded,
            StepState::Skipped,
            StepState::Succeeded
        ]
    );
    assert_eq!(
        shot.steps[1].attempts,
        vec![
            Attempt { step: 1, succeeded: false, cause: Some("flaky".to_string()) },
            Attempt { step: 1, succeeded: true, cause: None },
        ]
    );
    assert_eq!(shot.steps[0].attempts.len(), 1);
    assert!(shot.steps[2].attempts.is_empty());
    assert_eq!(shot.steps[3].attempts.len(), 1);
    assert_eq!(engine.run_snapshot(run + 1), Err(EngineError::UnknownRun(run + 1)));
}

#[test]
fn snapshot_of_a_failed_run_gives_the_cause() {
    let (mut engine, run) = engine_with(looping());
    drive(&mut engine, run, &mut |_, _| success());
    let shot = engine.run_snapshot(run).unwrap();
    assert_eq!(shot.state, WorkflowState::Failed);
    assert_eq!(shot.failure, Some("step budget exceeded".to_string()));
    assert_eq!(shot.steps[1].attempts.len(), 4);
    assert_eq!(shot.steps[1].state, StepState::Queued);
}

#[test]
fn loop_fails_when_budget_is_spent() {
    let (mut engine, run) = engine_with(looping());
    drive(&mut engine, run, &mut |_, _| success());
    let r = engine.get_run_state(run).unwrap();
    assert_eq!(r.state, WorkflowState::Failed);
    assert_eq!(r.failure, Some(EngineError::BudgetExceeded));
    assert_eq!(r.failure.as_ref().unwrap().message(), "step budget exceeded");
    assert_eq!(r.dispatched, vec![0, 1, 1, 1, 1]);
    assert_eq!(r.attempts.len(), 5);
    assert_eq!(r.states, vec![StepState::Succeeded, StepState::Queued]);
    assert_history_is_legal(r);
}

#[test]
fn loop_ends_when_its_condition_holds() {
    let (mut engine, run) = engine_with(looping());
    drive(&mut engine, run, &mut |_, n| {
        Outcome::Succeeded(fields(vec![("x", Scalar::Int(50 * n as i64))]))
    });
    let r = engine.get_run_state(run).unwrap();
    assert_eq!(r.state, WorkflowState::Completed);
    assert_eq!(r.dispatched, vec![0, 1, 1]);
    assert_eq!(r.context.get("x"), Some(&Scalar::Int(150)));
    assert_history_is_legal(r);
}

#[test]
fn engine_budget_applies_where_the_definition_has_none() {
    let mut def = looping();
    def.step_budget = None;
    let config = EngineConfig { step_budget: 3, retry: RetryPolicy::standard() };
    let mut engine = Engine::with_config(config);
    engine.submit_definition(def).unwrap();
    let run = engine.start_run("looping", None, Context::new()).unwrap();
    drive(&mut engine, run, &mut |_, _| success());
    let r = engine.get_run_state(run).unwrap();
    assert_eq!(r.failure, Some(EngineError::BudgetExceeded));
    assert_eq!(r.dispatched.len(), 3);
}

#[test]
fn no_matching_transition_fails_the_run() {
    let def = definition(
        "strict",
        vec![
            step("A", vec![arm("B", Some("ok")), arm(TERMINAL, Some("x > 0"))]),
            step("B", vec![arm(TERMINAL, None)]),
        ],
    );
    let (mut engine, run) = engine_with(def);
    assert_eq!(engine.next_action(run), Ok(Action::Invoke(0)));
    assert_eq!(
        engine.report_outcome(run, 0, Outcome::Succeeded(fields(vec![("x", Scalar::Int(0))]))),
        Ok(Followup::Finished)
    );
    let r = engine.get_run_state(run).unwrap();
    assert_eq!(r.state, WorkflowState::Failed);
    assert_eq!(r.failure, Some(EngineError::InvalidTransition));
    assert_eq!(r.failure.as_ref().unwrap().message(), "no transition matched");
    assert_eq!(r.states, vec![StepState::Succeeded, StepState::Skipped]);
    assert_eq!(r.context.get("x"), Some(&Scalar::Int(0)));
    assert_eq!(engine.next_action(run), Ok(Action::Finished));
    assert_history_is_legal(engine.get_run_state(run).unwrap());
}

#[test]
fn exhausted_retries_fail_the_run_with_the_cause() {
    let (mut engine, run) = engine_with(single(None));
    let mut seen = Vec::new();
    loop {
        match engine.next_action(run).unwrap() {
            Action::Invoke(step) => {
                match engine.report_outcome(run, step, failure("boom")).unwrap() {
                    Followup::RetryAfter(delay) => {
                        seen.push(delay);
                        engine.retry_due(run, step).unwrap();
                    }
                    Followup::Finished => break,
                    Followup::Continue => panic!("a failure does not go on"),
                }
            }
            other => panic!("unexpected action {:?}", other),
        }
    }
    assert_eq!(seen, vec![100, 200]);
    let r = engine.get_run_state(run).unwrap();
    assert_eq!(r.state, WorkflowState::Failed);
    assert_eq!(r.failure, Some(EngineError::Capability("boom".to_string())));
    assert_eq!(r.failure.as_ref().unwrap().message(), "boom");
    assert_eq!(r.attempts.len(), 3);
    assert_eq!(r.states, vec![StepState::Failed, StepState::Skipped]);
    assert_eq!(r.failures, vec![3, 0]);
    assert_history_is_legal(r);
}

#[test]
fn timeout_fails_with_deadline_exceeded() {
    let policy = RetryPolicy { max_attempts: 1, base_delay_ms: 1, max_delay_ms: 1 };
    let (mut engine, run) = engine_with(single(Some(policy)));
    assert_eq!(engine.next_action(run), Ok(Action::Invoke(0)));
    assert_eq!(engine.report_outcome(run, 0, Outcome::TimedOut), Ok(Followup::Finished));
    let r = engine.get_run_state(run).unwrap();
    assert_eq!(r.state, WorkflowState::Failed);
    assert_eq!(
        r.failure,
        Some(EngineError::Capability("deadline exceeded".to_string()))
    );
    assert_eq!(r.attempts[0].cause, Some("deadline exceeded".to_string()));
}

#[test]
fn zero_attempts_allow_no_retry() {
    let policy = RetryPolicy { max_attempts: 0, base_delay_ms: 1, max_delay_ms: 1 };
    let (mut engine, run) = engine_with(single(Some(policy)));
    assert_eq!(engine.next_action(run), Ok(Action::Invoke(0)));
    assert_eq!(engine.report_outcome(run, 0, failure("x")), Ok(Followup::Finished));
    assert_eq!(engine.get_run_state(run).unwrap().state, WorkflowState::Failed);
}

#[test]
fn unknown_kind_fails_the_step() {
    let mut registry = Registry::new();
    assert_eq!(registry.register("http".to_string()), 0);
    assert_eq!(registry.register("script".to_string()), 1);
    assert_eq!(registry.register("http".to_string()), 0);
    assert_eq!(registry.kinds, vec!["http".to_string(), "script".to_string()]);
    assert_eq!(registry.resolve("script"), Some(1));
    assert_eq!(registry.resolve("noop"), None);
    assert_eq!(registry.route("http"), Ok(0));
    assert_eq!(
        registry.route("noop"),
        Err(Outcome::Failed("unknown step kind".to_string()))
    );
    let policy = RetryPolicy { max_attempts: 1, base_delay_ms: 1, max_delay_ms: 1 };
    let (mut engine, run) = engine_with(single(Some(policy)));
    engine.kinds.register("http".to_string());
    assert_eq!(engine.next_action(run), Ok(Action::Invoke(0)));
    let kind = engine.get_definition("single", None).unwrap().steps[0].kind.clone();
    let outcome = engine.kinds.route(&kind).unwrap_err();
    assert_eq!(engine.report_outcome(run, 0, outcome), Ok(Followup::Finished));
    let r = engine.get_run_state(run).unwrap();
    assert_eq!(r.state, WorkflowState::Failed);
    assert_eq!(
        r.failure,
        Some(EngineError::Capability("unknown step kind".to_string()))
    );
}

#[test]
fn start_run_records_a_pending_run() {
    let mut engine = Engine::new();
    engine.submit_definition(branching()).unwrap();
    let ctx = fields(vec![("who", Scalar::Text("me".to_string()))]);
    assert_eq!(engine.start_run("branching", None, ctx.clone()), Ok(0));
    assert_eq!(engine.start_run("branching", Some(1), Context::new()), Ok(1));
    let r = engine.get_run_state(0).unwrap();
    assert_eq!(r.id, 0);
    assert_eq!(r.state, WorkflowState::Pending);
    assert_eq!(r.definition_id, "branching");
    assert_eq!(r.definition_version, 1);
    assert_eq!(r.context, ctx);
    assert_eq!(r.states, vec![StepState::Idle; 4]);
    assert!(r.queue.is_empty() && r.history.is_empty() && r.dispatched.is_empty());
    assert_eq!(engine.get_run_state(1).unwrap().id, 1);
    assert_eq!(engine.slots, vec![0, 0]);
}

#[test]
fn start_run_of_unknown_workflow_fails() {
    let mut engine = Engine::new();
    assert_eq!(
        engine.start_run("nothing", None, Context::new()),
        Err(EngineError::UnknownWorkflow("nothing".to_string()))
    );
    engine.submit_definition(branching()).unwrap();
    assert_eq!(
        engine.start_run("branching", Some(2), Context::new()),
        Err(EngineError::UnknownWorkflow("branching".to_string()))
    );
    assert!(engine.runs.is_empty());
}

#[test]
fn run_keeps_the_version_it_started_with() {
    let mut engine = Engine::new();
    engine.submit_definition(branching()).unwrap();
    let old = engine.start_run("branching", None, Context::new()).unwrap();
    let mut newer = branching();
    newer.steps[1].transitions[0].condition = Some("x > 10".to_string());
    engine.submit_definition(newer).unwrap();
    let new = engine.start_run("branching", None, Context::new()).unwrap();
    let mut script = |step: usize, _: usize| {
        if step == 0 {
            Outcome::Succeeded(fields(vec![("x", Scalar::Int(5))]))
        } else {
            success()
        }
    };
    drive(&mut engine, old, &mut script);
    drive(&mut engine, new, &mut script);
    assert_eq!(engine.get_run_state(old).unwrap().definition_version, 1);
    assert_eq!(engine.get_run_state(old).unwrap().dispatched, vec![0, 1, 2]);
    assert_eq!(engine.get_run_state(new).unwrap().definition_version, 2);
    assert_eq!(engine.get_run_state(new).unwrap().dispatched, vec![0, 1, 3]);
}

#[test]
fn first_action_starts_the_run() {
    let (mut engine, run) = engine_with(branching());
    assert_eq!(engine.next_action(run), Ok(Action::Invoke(0)));
    let r = engine.get_run_state(run).unwrap();
    assert_eq!(r.state, WorkflowState::Running);
    assert_eq!(r.states[0], StepState::Running);
    assert_eq!(
        r.history,
        vec![
            Event { step: 0, from: StepState::Idle, to: StepState::Queued },
            Event { step: 0, from: StepState::Queued, to: StepState::Running },
        ]
    );
    assert_eq!(engine.next_action(run), Ok(Action::Wait));
    assert_eq!(engine.get_run_state(run).unwrap().dispatched, vec![0]);
}

#[test]
fn cancel_of_an_ended_run_changes_nothing() {
    let (mut engine, run) = engine_with(single(None));
    drive(&mut engine, run, &mut |_, _| success());
    let before = engine.get_run_state(run).unwrap().clone();
    assert_eq!(before.state, WorkflowState::Completed);
    assert_eq!(engine.cancel_run(run), Ok(false));
    assert_eq!(engine.get_run_state(run).unwrap(), &before);

    let (mut engine, run) = engine_with(single(None));
    assert_eq!(engine.cancel_run(run), Ok(true));
    let cancelled = engine.get_run_state(run).unwrap().clone();
    assert_eq!(cancelled.state, WorkflowState::Cancelled);
    assert_eq!(engine.cancel_run(run), Ok(false));
    assert_eq!(engine.get_run_state(run).unwrap(), &cancelled);

    let policy = RetryPolicy { max_attempts: 1, base_delay_ms: 1, max_delay_ms: 1 };
    let (mut engine, run) = engine_with(single(Some(policy)));
    drive(&mut engine, run, &mut |_, _| failure("x"));
    let failed = engine.get_run_state(run).unwrap().clone();
    assert_eq!(failed.state, WorkflowState::Failed);
    assert_eq!(engine.cancel_run(run), Ok(false));
    assert_eq!(engine.get_run_state(run).unwrap(), &failed);
}

#[test]
fn cancel_of_a_pending_run_skips_every_step() {
    let (mut engine, run) = engine_with(branching());
    assert_eq!(engine.cancel_run(run), Ok(true));
    let r = engine.get_run_state(run).unwrap();
    assert_eq!(r.state, WorkflowState::Cancelled);
    assert_eq!(r.states, vec![StepState::Skipped; 4]);
    assert_eq!(r.failure, None);
    assert_eq!(engine.next_action(run), Ok(Action::Finished));
    assert_history_is_legal(engine.get_run_state(run).unwrap());
}

#[test]
fn late_outcome_does_not_reopen_a_cancelled_run() {
    let (mut engine, run) = engine_with(branching());
    assert_eq!(engine.next_action(run), Ok(Action::Invoke(0)));
    assert_eq!(engine.cancel_run(run), Ok(true));
    assert_eq!(
        engine.get_run_state(run).unwrap().states,
        vec![StepState::Running, StepState::Skipped, StepState::Skipped, StepState::Skipped]
    );
    assert_eq!(
        engine.report_outcome(run, 0, Outcome::Succeeded(fields(vec![("x", Scalar::Int(5))]))),
        Ok(Followup::Finished)
    );
    let r = engine.get_run_state(run).unwrap();
    assert_eq!(r.state, WorkflowState::Cancelled);
    assert_eq!(r.states[0], StepState::Succeeded);
    assert_eq!(r.attempts.len(), 1);
    assert_eq!(r.context.get("x"), None);
    assert!(r.queue.is_empty());
    assert_eq!(engine.next_action(run), Ok(Action::Finished));
    assert_history_is_legal(engine.get_run_state(run).unwrap());
}

#[test]
fn outcome_for_a_step_that_is_not_running_is_a_conflict() {
    let (mut engine, run) = engine_with(branching());
    assert_eq!(engine.report_outcome(run, 0, success()), Err(EngineError::Conflict));
    assert_eq!(engine.next_action(run), Ok(Action::Invoke(0)));
    let before = engine.get_run_state(run).unwrap().clone();
    assert_eq!(engine.report_outcome(run, 1, success()), Err(EngineError::Conflict));
    assert_eq!(engine.report_outcome(run, 9, success()), Err(EngineError::Conflict));
    assert_eq!(engine.retry_due(run, 0), Err(EngineError::Conflict));
    assert_eq!(engine.retry_due(run, 9), Err(EngineError::Conflict));
    assert_eq!(engine.get_run_state(run).unwrap(), &before);
    assert_eq!(engine.report_outcome(run, 0, success()), Ok(Followup::Continue));
    assert_eq!(engine.report_outcome(run, 0, success()), Err(EngineError::Conflict));
}

#[test]
fn unknown_run_is_reported() {
    let (mut engine, _) = engine_with(branching());
    assert_eq!(engine.next_action(1), Err(EngineError::UnknownRun(1)));
    assert_eq!(engine.report_outcome(1, 0, success()), Err(EngineError::UnknownRun(1)));
    assert_eq!(engine.retry_due(u64::MAX, 0), Err(EngineError::UnknownRun(u64::MAX)));
    assert_eq!(engine.cancel_run(5), Err(EngineError::UnknownRun(5)));
    assert_eq!(engine.get_run_state(1), Err(EngineError::UnknownRun(1)));
}

#[test]
fn list_runs_filters_by_state() {
    let mut engine = Engine::new();
    assert_eq!(engine.list_runs(None), Vec::<u64>::new());
    engine.submit_definition(single(None)).unwrap();
    for _ in 0..4 {
        engine.start_run("single", None, Context::new()).unwrap();
    }
    drive(&mut engine, 1, &mut |_, _| success());
    engine.cancel_run(2).unwrap();
    engine.next_action(3).unwrap();
    assert_eq!(engine.list_runs(None), vec![0, 1, 2, 3]);
    assert_eq!(engine.list_runs(Some(WorkflowState::Pending)), vec![0]);
    assert_eq!(engine.list_runs(Some(WorkflowState::Completed)), vec![1]);
    assert_eq!(engine.list_runs(Some(WorkflowState::Cancelled)), vec![2]);
    assert_eq!(engine.list_runs(Some(WorkflowState::Running)), vec![3]);
    assert_eq!(engine.list_runs(Some(WorkflowState::Failed)), Vec::<u64>::new());
    assert_eq!(engine.list_runs(Some(WorkflowState::Created)), Vec::<u64>::new());
}

#[test]
fn runs_do_not_affect_each_other() {
    let mut engine = Engine::new();
    engine.submit_definition(single(None)).unwrap();
    let a = engine.start_run("single", None, Context::new()).unwrap();
    let b = engine.start_run("single", None, Context::new()).unwrap();
    assert_eq!(engine.next_action(a), Ok(Action::Invoke(0)));
    let untouched = engine.get_run_state(b).unwrap().clone();
    let policy_exhausting = [failure("1"), failure("2"), failure("3")];
    for (i, outcome) in policy_exhausting.into_iter().enumerate() {
        match engine.report_outcome(a, 0, outcome).unwrap() {
            Followup::RetryAfter(_) => {
                engine.retry_due(a, 0).unwrap();
                assert_eq!(engine.next_action(a), Ok(Action::Invoke(0)));
            }
            Followup::Finished => assert_eq!(i, 2),
            Followup::Continue => panic!("a failure does not go on"),
        }
    }
    assert_eq!(engine.get_run_state(a).unwrap().state, WorkflowState::Failed);
    assert_eq!(engine.get_run_state(b).unwrap(), &untouched);
    drive(&mut engine, b, &mut |_, _| success());
    assert_eq!(engine.get_run_state(b).unwrap().state, WorkflowState::Completed);
}

#[test]
fn run_level_machine_without_an_engine() {
    let plan = validate(&branching()).unwrap();
    let mut run = Run::create(7, "branching".to_string(), 1, &plan, Context::new());
    assert_eq!(run.next_action(&plan, 10), Action::Wait);
    assert_eq!(run.state, WorkflowState::Pending);
    run.start(&plan);
    assert_eq!(run.queue, vec![0]);
    run.start(&plan);
    assert_eq!(run.queue, vec![0]);
    assert_eq!(run.next_action(&plan, 10), Action::Invoke(0));
    assert_eq!(
        run.record_outcome(&plan, 0, success(), RetryPolicy::standard()),
        Ok(Followup::Continue)
    );
    assert_eq!(run.queue, vec![1]);
    assert_eq!(run.next_action(&plan, 1), Action::Finished);
    assert_eq!(run.state, WorkflowState::Failed);
    assert_eq!(run.failure, Some(EngineError::BudgetExceeded));
    assert_eq!(
        run.states,
        vec![StepState::Succeeded, StepState::Queued, StepState::Skipped, StepState::Skipped]
    );
    assert!(!run.cancel());
    assert_eq!(run.id, 7);
}

#[test]
fn run_with_nothing_left_completes() {
    let plan = validate(&single(None)).unwrap();
    let mut run = Run::create(0, "single".to_string(), 1, &plan, Context::new());
    run.state = WorkflowState::Running;
    assert_eq!(run.next_action(&plan, 10), Action::Finished);
    assert_eq!(run.state, WorkflowState::Completed);
    assert_eq!(run.states, vec![StepState::Skipped, StepState::Skipped]);
}

#[test]
fn evaluate_takes_the_first_transition_that_fires() {
    let def = definition(
        "priority",
        vec![
            step(
                "A",
                vec![
                    arm("B", Some("x > 10")),
                    arm("C", Some("x > 0")),
                    arm(TERMINAL, Some("x == 0")),
                ],
            ),
            step("B", vec![arm(TERMINAL, None)]),
            step("C", vec![arm(TERMINAL, None)]),
        ],
    );
    let plan = validate(&def).unwrap();
    let none = Context::new();
    let at = |x: i64| evaluate(&plan.steps[0], &fields(vec![("x", Scalar::Int(x))]), &none);
    assert_eq!(at(11), Evaluation::Next(1));
    assert_eq!(at(10), Evaluation::Next(2));
    assert_eq!(at(1), Evaluation::Next(2));
    assert_eq!(at(0), Evaluation::Terminal);
    assert_eq!(at(-1), Evaluation::NoMatch);
    assert_eq!(evaluate(&plan.steps[0], &none, &none), Evaluation::NoMatch);
    assert_eq!(
        evaluate(&plan.steps[0], &none, &fields(vec![("x", Scalar::Int(11))])),
        Evaluation::Next(1)
    );
    assert_eq!(
        evaluate(
            &plan.steps[0],
            &fields(vec![("x", Scalar::Int(0))]),
            &fields(vec![("x", Scalar::Int(11))])
        ),
        Evaluation::Terminal
    );
    assert_eq!(evaluate(&plan.steps[1], &none, &none), Evaluation::Terminal);
}

#[test]
fn backoff_doubles_up_to_the_longest_wait() {
    let p = RetryPolicy { max_attempts: 10, base_delay_ms: 100, max_delay_ms: 1000 };
    assert_eq!(p.delay_after(0), 100);
    assert_eq!(p.delay_after(1), 100);
    assert_eq!(p.delay_after(2), 200);
    assert_eq!(p.delay_after(3), 400);
    assert_eq!(p.delay_after(4), 800);
    assert_eq!(p.delay_after(5), 1000);
    assert_eq!(p.delay_after(6), 1000);
    assert_eq!(p.delay_after(u32::MAX), 1000);
    let zero = RetryPolicy { max_attempts: 3, base_delay_ms: 0, max_delay_ms: 1000 };
    assert_eq!(zero.delay_after(1), 0);
    assert_eq!(zero.delay_after(u32::MAX), 0);
    let capped = RetryPolicy { max_attempts: 3, base_delay_ms: 500, max_delay_ms: 100 };
    assert_eq!(capped.delay_after(1), 100);
    let wide = RetryPolicy { max_attempts: 3, base_delay_ms: 3, max_delay_ms: u64::MAX };
    assert_eq!(wide.delay_after(3), 12);
    assert_eq!(wide.delay_after(63), 3 << 62);
    assert_eq!(wide.delay_after(64), u64::MAX);
    assert_eq!(wide.delay_after(200), u64::MAX);
    assert_eq!(
        RetryPolicy::standard(),
        RetryPolicy { max_attempts: 3, base_delay_ms: 100, max_delay_ms: 10000 }
    );
    assert!(p.allows_retry(9));
    assert!(!p.allows_retry(10));
    assert_eq!(
        EngineConfig::standard(),
        EngineConfig { step_budget: 10000, retry: RetryPolicy::standard() }
    );
}

#[test]
fn workflow_state_terminal_states() {
    assert!(WorkflowState::Completed.is_terminal());
    assert!(WorkflowState::Failed.is_terminal());
    assert!(WorkflowState::Cancelled.is_terminal());
    assert!(!WorkflowState::Created.is_terminal());
    assert!(!WorkflowState::Pending.is_terminal());
    assert!(!WorkflowState::Running.is_terminal());
}
