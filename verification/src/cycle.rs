//! The apply cycle as a state machine: each answer from the outside (the
//! backend's verdict, the hooks' reports, the backend's apply result, the
//! topology read back) moves the cycle on and names the next request. The
//! order of the cycle is stated here: the blank-plan gate comes first, then
//! validation, then the pre-apply hooks, at most one apply, the post-apply or
//! failure hooks only after an apply, and the check of what was applied.
use vstd::prelude::*;

use crate::engine::{
    first_failed, hook_failure_message, message_with_hook_failure, pre_apply_rejection,
    stage_after_apply, stage_hook_list, stage_hooks_for, with_hook_failures, ApplyResult,
    ConfigFailureKind, HookPolicy, HookResult, HookStage, TestResult, ValidationStatus,
};
use crate::model::{LimitViolation, LimitViolationView, Topology};
use crate::planner::{any_enabled_real, LayoutPlan};
use crate::profile::{hook_views, Hook, Hooks};
use crate::text::{opt_view, push_str};
use crate::workflow::{
    blank_plan_rejection, check_applied_topology, plan_mismatch_message, rejected_apply_result,
    topology_matches_plan_spec, validation_blocks_apply, AppliedTopologyCheck, ApplyPolicy,
};

verus! {

/// Where an apply cycle stands: what it has asked for and what it keeps.
#[derive(Debug, PartialEq)]
pub enum CycleState {
    /// Nothing asked yet.
    Planned,
    /// The backend was asked to validate the plan.
    Validating,
    /// The pre-apply hooks were asked to run.
    PreHooks { validation: TestResult },
    /// The backend was asked to apply the plan.
    Applying { validation: TestResult },
    /// The post-apply or failure hooks were asked to run.
    AfterHooks { validation: TestResult, result: ApplyResult },
    /// The topology after the apply was asked for.
    ReadingBack { validation: TestResult, result: ApplyResult },
    /// The cycle is over.
    Finished,
}

/// An answer from the outside.
#[derive(Debug, PartialEq)]
pub enum CycleEvent {
    /// The cycle is started.
    Start,
    /// The backend's validation verdict.
    Validated(TestResult),
    /// The reports of the hooks that were run, in order.
    HooksRan(Vec<HookResult>),
    /// The backend's apply result.
    Applied(ApplyResult),
    /// The topology read back after the apply, or why it could not be read.
    ReadBack(Result<Topology, String>),
}

/// How a cycle ends.
#[derive(Debug, PartialEq)]
pub enum CycleOutcome {
    /// Stopped before any apply, with the verdict that stopped it.
    Blocked(TestResult),
    /// Applied (or refused by a pre-apply hook), with the result as checked
    /// against the topology afterwards.
    Done { validation: TestResult, result: ApplyResult, topology: Topology },
    /// The topology afterwards reports a scale out of range; the result is
    /// yet to be turned into a rejection naming that scale, which is a float.
    InvalidScale {
        validation: TestResult,
        result: ApplyResult,
        topology: Topology,
        output: String,
        scale: u64,
    },
}

/// The next request of a cycle.
#[derive(Debug, PartialEq)]
pub enum CycleAction {
    Validate,
    RunHooks(HookStage, Vec<Hook>),
    Apply,
    ReadTopology,
    Finish(CycleOutcome),
    /// The answer does not belong to the pending request: nothing changes.
    Ignore,
}

/// How far a cycle has come; it never goes back.
pub open spec fn cycle_rank(s: CycleState) -> int {
    match s {
        CycleState::Planned => 0,
        CycleState::Validating => 1,
        CycleState::PreHooks { .. } => 2,
        CycleState::Applying { .. } => 3,
        CycleState::AfterHooks { .. } => 4,
        CycleState::ReadingBack { .. } => 5,
        CycleState::Finished => 6,
    }
}

pub open spec fn invalid_topology_prefix() -> Seq<char> {
    "backend returned invalid topology after apply: "@
}

pub open spec fn read_back_failure_prefix() -> Seq<char> {
    "failed to enumerate topology after apply: "@
}

pub open spec fn blank_plan_message() -> Seq<char> {
    "refusing to apply a layout with no enabled real outputs"@
}

/// A rejection that keeps the applied state it was given.
pub open spec fn rejected_as(r: ApplyResult, applied: Option<Topology>, message: Seq<char>) -> bool {
    &&& !r.success
    &&& r.failure == Some(ConfigFailureKind::Rejected)
    &&& r.applied_state == applied
    &&& opt_view(r.message) == Some(message)
}

/// The hooks that run at a stage under the policy.
pub open spec fn hooks_for(policy: ApplyPolicy, hooks: Hooks, stage: HookStage, hs: Vec<Hook>) -> bool {
    if policy.hook_policy == HookPolicy::Disabled {
        hs@.len() == 0
    } else {
        hook_views(hs@) == hook_views(stage_hook_list(hooks, stage)@)
    }
}

/// The verdict stops the apply (as `validation_blocks_apply` says).
pub open spec fn blocks(v: TestResult, policy: ApplyPolicy) -> bool {
    v.status == ValidationStatus::Rejected || (v.status == ValidationStatus::Unsupported
        && !policy.allow_unsupported_validation)
}

/// A result with the after-hooks' failures added (as `with_hook_failures` says).
pub open spec fn with_failures_as(r: ApplyResult, a: ApplyResult, rs: Seq<HookResult>) -> bool {
    &&& r.success == a.success
    &&& r.failure == a.failure
    &&& r.applied_state == a.applied_state
    &&& opt_view(r.message) == message_with_hook_failure(opt_view(a.message), rs)
}

/// How a cycle ends once the topology `t` afterwards is known: a result
/// that `base` describes (whose success and applied state are `success` and
/// `applied`) stands when the topology is within the limits and, for a
/// success, as planned; an apply that reported success but left another
/// layout, or a topology that breaks a limit, becomes a rejection that says
/// so; a scale out of range is reported for the caller to word.
pub open spec fn finished_as(
    o: CycleOutcome,
    v: TestResult,
    base: spec_fn(ApplyResult) -> bool,
    success: bool,
    applied: Option<Topology>,
    t: Topology,
    plan: LayoutPlan,
) -> bool {
    match t.limits_violation() {
        None => o matches CycleOutcome::Done { validation, result, topology } && validation == v
            && topology@ == t@ && if success && !topology_matches_plan_spec(t@, plan@.outputs) {
            rejected_as(
                result,
                applied,
                "backend reported success but applied topology does not match the intended plan"@,
            )
        } else {
            base(result)
        },
        Some(LimitViolationView::Message(m)) => o matches CycleOutcome::Done {
            validation,
            result,
            topology,
        } && validation == v && topology@ == t@ && rejected_as(
            result,
            applied,
            invalid_topology_prefix() + m,
        ),
        Some(LimitViolationView::InvalidScale { output, scale }) => o matches CycleOutcome::InvalidScale {
            validation,
            result,
            topology,
            output: out,
            scale: s,
        } && validation == v && topology@ == t@ && base(result) && out@ == output && s == scale,
    }
}

/// One step of the cycle: the state that an answer leads to and the next
/// request.
pub open spec fn step_relation(
    state: CycleState,
    event: CycleEvent,
    plan: LayoutPlan,
    hooks: Hooks,
    policy: ApplyPolicy,
    fallback: Topology,
    next: CycleState,
    action: CycleAction,
) -> bool {
    match state {
        CycleState::Planned => match event {
            CycleEvent::Start => if any_enabled_real(plan@.outputs) {
                next == CycleState::Validating && action == CycleAction::Validate
            } else {
                next == CycleState::Finished && (action matches CycleAction::Finish(
                    CycleOutcome::Blocked(t),
                ) && !t.success && t.status == ValidationStatus::Rejected && t.failure == Some(
                    ConfigFailureKind::Rejected,
                ) && opt_view(t.message) == Some(blank_plan_message()))
            },
            _ => next == state && action == CycleAction::Ignore,
        },
        CycleState::Validating => match event {
            CycleEvent::Validated(v) => if blocks(v, policy) {
                next == CycleState::Finished && action == CycleAction::Finish(
                    CycleOutcome::Blocked(v),
                )
            } else {
                next == (CycleState::PreHooks { validation: v }) && (action matches CycleAction::RunHooks(
                    stage,
                    hs,
                ) && stage == HookStage::PreApply && hooks_for(policy, hooks, stage, hs))
            },
            _ => next == state && action == CycleAction::Ignore,
        },
        CycleState::PreHooks { validation } => match event {
            CycleEvent::HooksRan(rs) => match first_failed(rs@) {
                None => next == (CycleState::Applying { validation }) && action
                    == CycleAction::Apply,
                Some(i) => next matches CycleState::ReadingBack { validation: w, result }
                    && w == validation && rejected_as(result, None, hook_failure_message(rs@[i]@))
                    && action == CycleAction::ReadTopology,
            },
            _ => next == state && action == CycleAction::Ignore,
        },
        CycleState::Applying { validation } => match event {
            CycleEvent::Applied(a) => next == (CycleState::AfterHooks { validation, result: a })
                && (action matches CycleAction::RunHooks(stage, hs) && stage == (if a.success {
                HookStage::PostApply
            } else {
                HookStage::OnFailure
            }) && hooks_for(policy, hooks, stage, hs)),
            _ => next == state && action == CycleAction::Ignore,
        },
        CycleState::AfterHooks { validation, result: a } => match event {
            CycleEvent::HooksRan(rs) => match a.applied_state {
                Some(t) => next == CycleState::Finished && (action matches CycleAction::Finish(o)
                    && finished_as(
                    o,
                    validation,
                    |r: ApplyResult| with_failures_as(r, a, rs@),
                    a.success,
                    a.applied_state,
                    t,
                    plan,
                )),
                None => next matches CycleState::ReadingBack { validation: w, result }
                    && w == validation && with_failures_as(result, a, rs@) && action
                    == CycleAction::ReadTopology,
            },
            _ => next == state && action == CycleAction::Ignore,
        },
        CycleState::ReadingBack { validation, result: a } => match event {
            CycleEvent::ReadBack(Ok(t)) => next == CycleState::Finished && (action matches CycleAction::Finish(
                o,
            ) && finished_as(o, validation, |r: ApplyResult| r == a, a.success, a.applied_state, t, plan)),
            CycleEvent::ReadBack(Err(e)) => next == CycleState::Finished && (action matches CycleAction::Finish(
                o,
            ) && finished_as(
                o,
                validation,
                |r: ApplyResult| rejected_as(r, a.applied_state, read_back_failure_prefix() + e@),
                false,
                a.applied_state,
                fallback,
                plan,
            )),
            _ => next == state && action == CycleAction::Ignore,
        },
        CycleState::Finished => next == state && action == CycleAction::Ignore,
    }
}

/// The end of a cycle once the topology afterwards is known.
fn finish_cycle(validation: TestResult, result: ApplyResult, topology: Topology, plan: &LayoutPlan) -> (o:
    CycleOutcome)
    ensures
        finished_as(
            o,
            validation,
            |r: ApplyResult| r == result,
            result.success,
            result.applied_state,
            topology,
            *plan,
        ),
{
    let success = result.success;
    match check_applied_topology(&topology, plan, success) {
        AppliedTopologyCheck::Consistent => CycleOutcome::Done { validation, result, topology },
        AppliedTopologyCheck::Mismatch => CycleOutcome::Done {
            validation,
            result: rejected_apply_result(result, plan_mismatch_message()),
            topology,
        },
        AppliedTopologyCheck::Invalid(LimitViolation::Message(m)) => {
            let mut message = String::new();
            push_str(&mut message, "backend returned invalid topology after apply: ");
            push_str(&mut message, m.as_str());
            CycleOutcome::Done { validation, result: rejected_apply_result(result, message), topology }
        },
        AppliedTopologyCheck::Invalid(LimitViolation::InvalidScale { output, scale }) => {
            CycleOutcome::InvalidScale { validation, result, topology, output, scale }
        },
    }
}

fn clone_topology(t: &Option<Topology>) -> (r: Option<Topology>)
    ensures
        match (*t, r) {
            (Some(a), Some(b)) => a@ == b@,
            (None, None) => true,
            _ => false,
        },
{
    match t {
        Some(a) => Some(a.clone()),
        None => None,
    }
}

/// Moves the cycle on by one answer. `fallback` is the topology the plan
/// was made for, used when the topology cannot be read back.
///
/// The cycle keeps its order: it never goes back; validation is asked for
/// only at the start of a plan that leaves a real output on; the apply is
/// asked for only once the pre-apply hooks all succeeded, and at most once
/// (the cycle is past that point afterwards); the post-apply or failure
/// hooks run only once the apply answered.
pub fn apply_cycle_step(
    state: CycleState,
    event: CycleEvent,
    plan: &LayoutPlan,
    hooks: &Hooks,
    policy: &ApplyPolicy,
    fallback: &Topology,
) -> (r: (CycleState, CycleAction))
    ensures
        step_relation(state, event, *plan, *hooks, *policy, *fallback, r.0, r.1),
        cycle_rank(r.0) >= cycle_rank(state),
        r.1 == CycleAction::Validate ==> state == CycleState::Planned,
        r.1 == CycleAction::Apply ==> state is PreHooks && r.0 is Applying,
        r.1 matches CycleAction::RunHooks(stage, _) ==> (stage == HookStage::PreApply
            <==> state is Validating),
        r.1 matches CycleAction::RunHooks(stage, _) && stage != HookStage::PreApply ==> state is Applying,
{
    match (state, event) {
        (CycleState::Planned, CycleEvent::Start) => match blank_plan_rejection(plan) {
            Some(rejection) => (CycleState::Finished, CycleAction::Finish(CycleOutcome::Blocked(rejection))),
            None => (CycleState::Validating, CycleAction::Validate),
        },
        (CycleState::Validating, CycleEvent::Validated(v)) => {
            if validation_blocks_apply(&v, policy) {
                (CycleState::Finished, CycleAction::Finish(CycleOutcome::Blocked(v)))
            } else {
                let hs = stage_hooks_for(policy.hook_policy, hooks, HookStage::PreApply);
                (CycleState::PreHooks { validation: v }, CycleAction::RunHooks(HookStage::PreApply, hs))
            }
        },
        (CycleState::PreHooks { validation }, CycleEvent::HooksRan(rs)) => {
            match pre_apply_rejection(rs.as_slice()) {
                Some(rejection) => (
                    CycleState::ReadingBack { validation, result: rejection },
                    CycleAction::ReadTopology,
                ),
                None => (CycleState::Applying { validation }, CycleAction::Apply),
            }
        },
        (CycleState::Applying { validation }, CycleEvent::Applied(a)) => {
            let stage = stage_after_apply(&a);
            let hs = stage_hooks_for(policy.hook_policy, hooks, stage);
            (CycleState::AfterHooks { validation, result: a }, CycleAction::RunHooks(stage, hs))
        },
        (CycleState::AfterHooks { validation, result: a }, CycleEvent::HooksRan(rs)) => {
            let ghost a0 = a;
            let b = with_hook_failures(a, rs.as_slice());
            match clone_topology(&b.applied_state) {
                Some(t) => {
                    let ghost t0 = a0.applied_state->0;
                    let o = finish_cycle(validation, b, t, plan);
                    proof {
                        assert(t@ == t0@);
                        assert(t.limits_violation() == t0.limits_violation());
                    }
                    (CycleState::Finished, CycleAction::Finish(o))
                },
                None => (CycleState::ReadingBack { validation, result: b }, CycleAction::ReadTopology),
            }
        },
        (CycleState::ReadingBack { validation, result: a }, CycleEvent::ReadBack(Ok(t))) => {
            (CycleState::Finished, CycleAction::Finish(finish_cycle(validation, a, t, plan)))
        },
        (CycleState::ReadingBack { validation, result: a }, CycleEvent::ReadBack(Err(e))) => {
            let mut message = String::new();
            push_str(&mut message, "failed to enumerate topology after apply: ");
            push_str(&mut message, e.as_str());
            let rejected = rejected_apply_result(a, message);
            let t = fallback.clone();
            (CycleState::Finished, CycleAction::Finish(finish_cycle(validation, rejected, t, plan)))
        },
        (state, _) => (state, CycleAction::Ignore),
    }
}

} // verus!
