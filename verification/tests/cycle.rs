use waytorandr::cycle::{apply_cycle_step, CycleAction, CycleEvent, CycleOutcome, CycleState};
use waytorandr::engine::{
    hook_exit_result, hook_spawn_failed_result, ApplyResult, ConfigFailureKind, HookPolicy, HookResult,
    TestResult,
};
use waytorandr::model::{OutputState, Topology};
use waytorandr::planner::LayoutPlan;
use waytorandr::profile::{Hook, Hooks};
use waytorandr::workflow::ApplyPolicy;

/// What the simulated outside saw of a cycle.
#[derive(Default)]
struct Calls {
    validations: usize,
    applies: usize,
    read_backs: usize,
    hooks: Vec<String>,
}

fn enabled_plan() -> LayoutPlan {
    let mut state = OutputState::new("DP-1");
    state.enabled = true;
    LayoutPlan::new(vec![("DP-1".to_string(), state)])
}

fn plan_topology(plan: &LayoutPlan) -> Topology {
    Topology { outputs: plan.outputs.clone() }
}

/// A hook runs as its command says: `missing` cannot start, `fail:<label>`
/// exits 7 after writing `<label> diagnostic` to stderr, anything else succeeds.
fn run_hook(hook: &Hook, phase: &str) -> HookResult {
    if hook.command == "missing" {
        return hook_spawn_failed_result(hook, phase, "No such file or directory (os error 2)");
    }
    match hook.command.strip_prefix("fail:") {
        Some(label) => {
            let mut result = hook_exit_result(hook, phase, false, Some(7), 5);
            result.stderr = format!("{label} diagnostic");
            result
        }
        None => hook_exit_result(hook, phase, true, Some(0), 5),
    }
}

fn drive(
    plan: &LayoutPlan,
    hooks: &Hooks,
    policy: ApplyPolicy,
    verdict: TestResult,
    apply: impl Fn(&LayoutPlan) -> ApplyResult,
) -> (CycleOutcome, Calls) {
    let mut calls = Calls::default();
    let mut verdict = Some(verdict);
    let fallback = plan_topology(plan);
    let mut state = CycleState::Planned;
    let mut event = CycleEvent::Start;
    loop {
        let (next, action) = apply_cycle_step(state, event, plan, hooks, &policy, &fallback);
        state = next;
        event = match action {
            CycleAction::Validate => {
                calls.validations += 1;
                CycleEvent::Validated(verdict.take().expect("one validation"))
            }
            CycleAction::RunHooks(stage, list) => {
                let results = list
                    .iter()
                    .map(|hook| {
                        calls.hooks.push(format!("{}:{}", stage.phase(), hook.command));
                        run_hook(hook, stage.phase())
                    })
                    .collect();
                CycleEvent::HooksRan(results)
            }
            CycleAction::Apply => {
                calls.applies += 1;
                CycleEvent::Applied(apply(plan))
            }
            CycleAction::ReadTopology => {
                calls.read_backs += 1;
                CycleEvent::ReadBack(Ok(plan_topology(plan)))
            }
            CycleAction::Finish(outcome) => return (outcome, calls),
            CycleAction::Ignore => panic!("every request is answered in turn"),
        };
    }
}

fn applies(plan: &LayoutPlan) -> ApplyResult {
    ApplyResult::applied(None, Some(plan_topology(plan)))
}

fn phase_hooks() -> Hooks {
    Hooks {
        pre_apply: vec![Hook::new("pre")],
        post_apply: vec![Hook::new("post")],
        on_failure: vec![Hook::new("failure")],
    }
}

fn done(outcome: CycleOutcome) -> ApplyResult {
    match outcome {
        CycleOutcome::Done { result, .. } => result,
        other => panic!("expected a finished apply, got {other:?}"),
    }
}

#[test]
fn engine_apply_plan_applies_once_and_runs_phase_specific_hooks() {
    let plan = enabled_plan();
    let (outcome, calls) =
        drive(&plan, &phase_hooks(), ApplyPolicy::default(), TestResult::supported(None), applies);
    let result = done(outcome);
    assert!(result.is_applied());
    assert_eq!(calls.applies, 1);
    assert_eq!(calls.hooks, vec!["pre-apply:pre".to_string(), "post-apply:post".to_string()]);
}

#[test]
fn tests_apply_plan_applies_once_and_runs_phase_specific_hooks() {
    let plan = enabled_plan();
    let (outcome, calls) =
        drive(&plan, &phase_hooks(), ApplyPolicy::default(), TestResult::supported(None), applies);
    assert!(done(outcome).is_applied());
    assert_eq!(calls.validations, 1);
    assert_eq!(calls.applies, 1);
    assert_eq!(calls.read_backs, 0);
    assert!(calls.hooks.iter().any(|h| h.ends_with(":pre")));
    assert!(calls.hooks.iter().any(|h| h.ends_with(":post")));
    assert!(!calls.hooks.iter().any(|h| h.ends_with(":failure")));
}

fn pre_hook_cannot_start() {
    let plan = enabled_plan();
    let hooks = Hooks { pre_apply: vec![Hook::new("missing")], ..Hooks::default() };
    let (outcome, calls) = drive(&plan, &hooks, ApplyPolicy::default(), TestResult::supported(None), applies);
    let result = done(outcome);
    assert!(!result.is_applied());
    assert_eq!(result.failure(), Some(ConfigFailureKind::Rejected));
    assert!(result.message().is_some_and(|m| m.contains("pre-apply hook")));
    assert_eq!(calls.applies, 0);
}

#[test]
fn engine_apply_plan_rejects_when_pre_hook_cannot_start() {
    pre_hook_cannot_start();
}

#[test]
fn tests_apply_plan_rejects_when_pre_hook_cannot_start() {
    pre_hook_cannot_start();
}

#[test]
fn apply_plan_reports_failed_hook_stderr() {
    let plan = enabled_plan();
    let hooks = Hooks { pre_apply: vec![Hook::new("fail:pre")], ..Hooks::default() };
    let (outcome, calls) = drive(&plan, &hooks, ApplyPolicy::default(), TestResult::supported(None), applies);
    let result = done(outcome);
    assert!(!result.is_applied());
    assert!(result.message().is_some_and(|m| m.contains("diagnostic")));
    assert_eq!(calls.applies, 0);
}

#[test]
fn apply_plan_surfaces_post_apply_hook_failure_without_overriding_apply_success() {
    let plan = enabled_plan();
    let hooks = Hooks { post_apply: vec![Hook::new("fail:post")], ..Hooks::default() };
    let (outcome, _) = drive(&plan, &hooks, ApplyPolicy::default(), TestResult::supported(None), applies);
    let result = done(outcome);
    assert!(result.is_applied());
    assert!(result.applied_state().is_some());
    assert!(result.message().is_some_and(|m| m.contains("post diagnostic")));
}

#[test]
fn apply_plan_surfaces_failure_hook_failure_without_overriding_backend_failure() {
    let plan = enabled_plan();
    let hooks = Hooks { on_failure: vec![Hook::new("fail:failure")], ..Hooks::default() };
    let (outcome, calls) = drive(&plan, &hooks, ApplyPolicy::default(), TestResult::supported(None), |_| {
        ApplyResult::failed(Some(ConfigFailureKind::Rejected), Some("backend rejected".to_string()))
    });
    let result = done(outcome);
    assert!(!result.is_applied());
    assert_eq!(result.failure(), Some(ConfigFailureKind::Rejected));
    assert!(result
        .message()
        .is_some_and(|m| m.contains("backend rejected") && m.contains("failure diagnostic")));
    assert_eq!(calls.applies, 1);
    assert_eq!(calls.hooks, vec!["failure:fail:failure".to_string()]);
}

#[test]
fn disabled_hooks_apply_once_without_running_any_hook() {
    let plan = enabled_plan();
    let policy = ApplyPolicy { hook_policy: HookPolicy::Disabled, ..ApplyPolicy::default() };
    let hooks = Hooks { pre_apply: vec![Hook::new("missing")], ..phase_hooks() };
    let (outcome, calls) = drive(&plan, &hooks, policy, TestResult::supported(None), applies);
    assert!(done(outcome).is_applied());
    assert_eq!(calls.applies, 1);
    assert!(calls.hooks.is_empty());
}

#[test]
fn blank_plan_is_refused_before_the_backend_is_asked() {
    let plan = LayoutPlan::new(vec![("DP-1".to_string(), OutputState::new("DP-1"))]);
    let (outcome, calls) =
        drive(&plan, &phase_hooks(), ApplyPolicy::default(), TestResult::supported(None), applies);
    assert!(matches!(outcome, CycleOutcome::Blocked(_)));
    assert_eq!(calls.validations, 0);
    assert_eq!(calls.applies, 0);
    assert!(calls.hooks.is_empty());
}

#[test]
fn rejected_validation_stops_before_hooks_and_apply() {
    let plan = enabled_plan();
    let verdict = TestResult::rejected(Some(ConfigFailureKind::Rejected), Some("no".to_string()));
    let (outcome, calls) = drive(&plan, &phase_hooks(), ApplyPolicy::default(), verdict, applies);
    assert!(matches!(outcome, CycleOutcome::Blocked(v) if v.message.as_deref() == Some("no")));
    assert_eq!(calls.applies, 0);
    assert!(calls.hooks.is_empty());
}

#[test]
fn unsupported_validation_applies_only_when_allowed() {
    let plan = enabled_plan();
    let (outcome, calls) =
        drive(&plan, &Hooks::default(), ApplyPolicy::default(), TestResult::unsupported(None), applies);
    assert!(matches!(outcome, CycleOutcome::Blocked(_)));
    assert_eq!(calls.applies, 0);

    let allowed = ApplyPolicy { allow_unsupported_validation: true, ..ApplyPolicy::default() };
    let (outcome, calls) = drive(&plan, &Hooks::default(), allowed, TestResult::unsupported(None), applies);
    assert!(done(outcome).is_applied());
    assert_eq!(calls.applies, 1);
}

#[test]
fn success_with_another_layout_becomes_a_rejection() {
    let plan = enabled_plan();
    let (outcome, _) = drive(&plan, &Hooks::default(), ApplyPolicy::default(), TestResult::supported(None), |_| {
        let mut off = Topology::new();
        off.insert("DP-1".to_string(), OutputState::new("DP-1"));
        ApplyResult::applied(Some("ok".to_string()), Some(off))
    });
    let result = done(outcome);
    assert!(!result.is_applied());
    assert_eq!(
        result.message(),
        Some("backend reported success but applied topology does not match the intended plan")
    );
}

#[test]
fn stray_answers_change_nothing() {
    let plan = enabled_plan();
    let (state, action) = apply_cycle_step(
        CycleState::Validating,
        CycleEvent::Start,
        &plan,
        &Hooks::default(),
        &ApplyPolicy::default(),
        &plan_topology(&plan),
    );
    assert_eq!(state, CycleState::Validating);
    assert_eq!(action, CycleAction::Ignore);
}
