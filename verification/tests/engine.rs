use std::time::Duration;
use waytorandr::engine::{
    format_hook_failure, hook_exit_result, hook_poll, hook_spawn_failed_result, hook_timeout_result,
    hook_wait_failed_result, pre_apply_rejection, stage_after_apply, stage_hooks_for, validation_without_backend,
    with_hook_failures, ApplyResult, ApplyStatus, ConfigFailureKind, HookPoll, HookResult, HookStage,
    HookPolicy, PollingOutputWatcher, TestResult, ValidationStatus,
};
use waytorandr::error::{BackendConnectionAttempt, BackendConnectionError, CoreError};
use waytorandr::model::backend::{BackendKind, Capabilities};
use waytorandr::model::{OutputState, Topology};
use waytorandr::planner::PlanError;
use waytorandr::profile::{Hook, Hooks};
use waytorandr::terminal::escape_terminal_text;

#[test]
fn config_failure_kind_labels_are_stable() {
    assert_eq!(ConfigFailureKind::Rejected.as_label(), "rejected");
    assert_eq!(
        ConfigFailureKind::TopologyChanged.as_label(),
        "topology_changed"
    );
}

#[test]
fn no_supported_backend_display_uses_stable_attempt_format() {
    let error = BackendConnectionError::NoSupportedBackend {
        wayland_display: "<unset>".to_string(),
        xdg_runtime_dir: "/run/user/1000".to_string(),
        display_hint: String::new(),
        attempts: vec![
            BackendConnectionAttempt::new("gnome", "dbus unavailable".to_string()),
            BackendConnectionAttempt::new("wlroots", "protocol missing".to_string()),
        ],
    };

    assert_eq!(
        error.to_string(),
        "failed to connect to a supported backend (WAYLAND_DISPLAY=<unset>, XDG_RUNTIME_DIR=/run/user/1000); attempts: gnome: dbus unavailable; wlroots: protocol missing"
    );
}

#[test]
fn escapes_terminal_controls() {
    assert_eq!(
        escape_terminal_text("a\x1b]0;pwn\x07\r\nb"),
        "a\\e]0;pwn\\a\\r\\nb"
    );
}

#[test]
fn keeps_printable_unicode() {
    assert_eq!(escape_terminal_text("Dell 日本"), "Dell 日本");
}

#[test]
fn escapes_other_controls_as_unicode_escapes() {
    assert_eq!(escape_terminal_text("x\u{0}y\u{7f}z\u{9b}"), "x\\u{0000}y\\u{007f}z\\u{009b}");
}

#[test]
fn format_hook_failure_includes_exit_code_and_stdout_when_stderr_is_empty() {
    let result = HookResult {
        success: false,
        exit_code: Some(7),
        stdout: "useful stdout\n".to_string(),
        stderr: String::new(),
        phase: Some("pre-apply".to_string()),
        command: Some("notify".to_string()),
        ..HookResult::default()
    };

    assert_eq!(
        format_hook_failure(&result),
        "pre-apply hook 'notify' failed (exit code 7): stdout: useful stdout"
    );
}

#[test]
fn format_hook_failure_prefers_stderr_and_includes_exit_code() {
    let result = HookResult {
        success: false,
        exit_code: Some(3),
        stdout: "ignored stdout".to_string(),
        stderr: "useful stderr\n".to_string(),
        phase: Some("post-apply".to_string()),
        command: Some("notify".to_string()),
        ..HookResult::default()
    };

    assert_eq!(
        format_hook_failure(&result),
        "post-apply hook 'notify' failed (exit code 3): useful stderr"
    );
}

#[test]
fn format_hook_failure_bounds_long_stdout() {
    let result = HookResult {
        success: false,
        exit_code: Some(1),
        stdout: "x".repeat(241),
        stderr: String::new(),
        phase: Some("failure".to_string()),
        command: Some("notify".to_string()),
        ..HookResult::default()
    };
    let message = format_hook_failure(&result);

    assert!(message.ends_with("..."));
    assert!(message.len() < 240 + 80);
}

#[test]
fn format_hook_failure_without_details_names_defaults() {
    let result = HookResult::default();
    assert_eq!(format_hook_failure(&result), "hook hook '<unknown>' failed");
}

#[test]
fn pre_apply_rejection_reports_first_failed_hook() {
    let ok = HookResult { success: true, ..HookResult::default() };
    let failed = HookResult {
        success: false,
        exit_code: Some(2),
        stderr: "boom".to_string(),
        phase: Some("pre-apply".to_string()),
        command: Some("check".to_string()),
        ..HookResult::default()
    };
    assert!(pre_apply_rejection(&[HookResult { success: true, ..HookResult::default() }]).is_none());
    let rejection = pre_apply_rejection(&[ok, failed]).expect("rejected");
    assert!(!rejection.is_applied());
    assert_eq!(rejection.failure(), Some(ConfigFailureKind::Rejected));
    assert_eq!(
        rejection.message(),
        Some("pre-apply hook 'check' failed (exit code 2): boom")
    );
}

#[test]
fn apply_result_constructors_keep_status_and_applied_state_consistent() {
    let applied = ApplyResult::applied(Some("ok".to_string()), None);
    assert_eq!(applied.status(), ApplyStatus::Applied);
    assert_eq!(applied.message(), Some("ok"));
    assert_eq!(applied.failure(), None);

    let failed = ApplyResult::failed(Some(ConfigFailureKind::Rejected), Some("no".to_string()));
    assert_eq!(
        failed.status(),
        ApplyStatus::Failed {
            failure: Some(ConfigFailureKind::Rejected)
        }
    );
    assert_eq!(failed.message(), Some("no"));
    assert_eq!(failed.failure(), Some(ConfigFailureKind::Rejected));
    assert!(failed.applied_state().is_none());
}

#[test]
fn test_result_constructors_set_status() {
    assert!(TestResult::supported(None).is_accepted());
    let rejected = TestResult::rejected(Some(ConfigFailureKind::TopologyChanged), None);
    assert!(!rejected.is_accepted());
    assert_eq!(rejected.status, ValidationStatus::Rejected);
    assert_eq!(TestResult::unsupported(None).status, ValidationStatus::Unsupported);
}

fn topology_with_output(enabled: bool, x: i32) -> Topology {
    let mut output = OutputState::new("DP-1");
    output.enabled = enabled;
    output.position.x = x;
    Topology {
        outputs: vec![("DP-1".to_string(), output)],
    }
}

fn two_outputs(a: &str, b: &str) -> Topology {
    let mut first = OutputState::new(a);
    first.enabled = true;
    let mut second = OutputState::new(b);
    second.enabled = true;
    Topology {
        outputs: vec![(a.to_string(), first), (b.to_string(), second)],
    }
}

fn ignores_non_physical_layout_changes() {
    let initial = topology_with_output(true, 0);
    let moved = topology_with_output(true, 640);
    let mut watcher = PollingOutputWatcher::new((), Duration::from_millis(0), Some(initial.setup_fingerprint()));
    let changed = watcher.observe(moved).expect("within limits");
    assert!(changed.is_none());
}

fn reports_physical_setup_changes() {
    let initial = topology_with_output(true, 0);
    let changed_topology = two_outputs("DP-1", "HDMI-A-1");
    let mut watcher = PollingOutputWatcher::new((), Duration::from_millis(0), Some(initial.setup_fingerprint()));
    let changed = watcher.observe(changed_topology.clone()).expect("within limits");
    assert_eq!(changed, Some(changed_topology));
}

fn reports_blank_setup_changes() {
    let initial = two_outputs("eDP-1", "DP-1");
    let blank = topology_with_output(false, 0);
    let recovered = topology_with_output(true, 0);
    let mut watcher = PollingOutputWatcher::new((), Duration::from_millis(0), Some(initial.setup_fingerprint()));
    assert_eq!(watcher.observe(blank.clone()).expect("within limits"), Some(blank));
    assert!(watcher.observe(recovered).expect("within limits").is_none());
}

#[test]
fn engine_polling_output_watcher_ignores_non_physical_layout_changes() {
    ignores_non_physical_layout_changes();
}

#[test]
fn tests_polling_output_watcher_ignores_non_physical_layout_changes() {
    ignores_non_physical_layout_changes();
}

#[test]
fn engine_polling_output_watcher_reports_physical_setup_changes() {
    reports_physical_setup_changes();
}

#[test]
fn tests_polling_output_watcher_reports_physical_setup_changes() {
    reports_physical_setup_changes();
}

#[test]
fn engine_polling_output_watcher_reports_blank_setup_changes() {
    reports_blank_setup_changes();
}

#[test]
fn tests_polling_output_watcher_reports_blank_setup_changes() {
    reports_blank_setup_changes();
}

#[test]
fn validate_plan_short_circuits_when_backend_cannot_validate() {
    let capabilities = Capabilities::new(BackendKind::Test);
    let result = validation_without_backend(&capabilities).expect("no backend call");
    assert!(!result.is_accepted());
    assert_eq!(result.status, ValidationStatus::Unsupported);
    assert_eq!(result.message.as_deref(), Some("Backend does not support validation"));
    let mut validating = Capabilities::new(BackendKind::Test);
    validating.can_validate = true;
    assert!(validation_without_backend(&validating).is_none());
}

#[test]
fn ambiguous_profile_error_is_readable() {
    let error = CoreError::AmbiguousProfile("desk".to_string());
    assert!(error.to_string().expect("a message").contains("desk"));
}

#[test]
fn backend_error_display_includes_source() {
    let error = CoreError::Backend("dbus call failed".to_string());
    assert_eq!(error.to_string().expect("a message"), "backend error: dbus call failed");
}

#[test]
fn plan_error_display_includes_source() {
    let error = CoreError::Plan(PlanError::MissingOutput("DP-1".to_string()));
    assert_eq!(error.to_string().expect("a message"), "plan error: Missing output: DP-1");
}

fn failed_hook(phase: &str, stderr: &str) -> HookResult {
    HookResult {
        success: false,
        exit_code: Some(7),
        stdout: String::new(),
        stderr: stderr.to_string(),
        phase: Some(phase.to_string()),
        command: Some("sh".to_string()),
        ..HookResult::default()
    }
}

#[test]
fn post_apply_hook_failure_is_reported_without_undoing_the_apply() {
    let applied = ApplyResult::applied(None, Some(topology_with_output(true, 0)));
    let result = with_hook_failures(applied, &[failed_hook("post-apply", "post diagnostic")]);
    assert!(result.is_applied());
    assert!(result.applied_state().is_some());
    assert!(result.message().is_some_and(|m| m.contains("post diagnostic")));
}

#[test]
fn failure_hook_failure_is_reported_beside_the_backend_failure() {
    let failed = ApplyResult::failed(Some(ConfigFailureKind::Rejected), Some("backend rejected".to_string()));
    let result = with_hook_failures(failed, &[failed_hook("failure", "failure diagnostic")]);
    assert!(!result.is_applied());
    assert_eq!(result.failure(), Some(ConfigFailureKind::Rejected));
    assert_eq!(
        result.message(),
        Some("backend rejected; failure hook 'sh' failed (exit code 7): failure diagnostic")
    );
}

#[test]
fn hooks_that_succeed_leave_the_result_alone() {
    let ok = HookResult {
        success: true,
        ..HookResult::default()
    };
    let applied = ApplyResult::applied(Some("ok".to_string()), None);
    let result = with_hook_failures(applied, &[ok]);
    assert_eq!(result.message(), Some("ok"));
}

#[test]
fn stage_after_apply_picks_post_or_failure_hooks() {
    let applied = ApplyResult::applied(None, None);
    let failed = ApplyResult::failed(None, None);
    assert_eq!(stage_after_apply(&applied), HookStage::PostApply);
    assert_eq!(stage_after_apply(&failed), HookStage::OnFailure);
    assert_eq!(HookStage::PreApply.phase(), "pre-apply");
    assert_eq!(HookStage::OnFailure.phase(), "failure");
}

#[test]
fn hook_timeouts_are_clamped_and_enforced() {
    let mut hook = Hook::new("sleep");
    hook.timeout_secs = 0;
    assert_eq!(hook.effective_timeout_secs(), 1);
    assert_eq!(hook_poll(&hook, false, 1000), HookPoll::Wait);
    assert_eq!(hook_poll(&hook, false, 1001), HookPoll::TimedOut);
    assert_eq!(hook_poll(&hook, true, 5000), HookPoll::Finished);
    hook.timeout_secs = 10_000;
    assert_eq!(hook.effective_timeout_secs(), 300);
    let result = hook_timeout_result(&hook, "post-apply", None);
    assert!(!result.success);
    assert_eq!(result.stderr, "Hook timed out");
    assert_eq!(result.elapsed_millis, 300_000);
    assert_eq!(format_hook_failure(&result), "post-apply hook 'sleep' failed: Hook timed out");
    let stuck = hook_timeout_result(&hook, "post-apply", Some("permission denied"));
    assert_eq!(stuck.stderr, "Hook timed out and could not be killed: permission denied");
}

#[test]
fn hooks_that_cannot_start_report_why() {
    let hook = Hook::new("missing-command");
    let result = hook_spawn_failed_result(&hook, "pre-apply", "No such file or directory");
    assert_eq!(result.stderr, "Failed to spawn: No such file or directory");
    assert_eq!(result.command.as_deref(), Some("missing-command"));
    let exited = hook_exit_result(&hook, "pre-apply", true, Some(0), 12);
    assert!(exited.success);
    assert_eq!(exited.elapsed_millis, 12);
    let waited = hook_wait_failed_result(&hook, "pre-apply", "interrupted", 3);
    assert_eq!(waited.stderr, "Hook wait failed: interrupted");
}

#[test]
fn apply_plan_skips_hooks_when_policy_disables_them() {
    let hooks = Hooks {
        pre_apply: vec![Hook::new("definitely-not-a-real-hook-command")],
        post_apply: vec![Hook::new("post")],
        on_failure: vec![Hook::new("failure")],
    };

    let pre = stage_hooks_for(HookPolicy::Disabled, &hooks, HookStage::PreApply);
    assert!(pre.is_empty());
    let pre_results: Vec<HookResult> = Vec::new();
    assert_eq!(pre_apply_rejection(&pre_results), None);

    let applied = ApplyResult::applied(None, None);
    let stage = stage_after_apply(&applied);
    assert!(stage_hooks_for(HookPolicy::Disabled, &hooks, stage).is_empty());
    assert!(stage_hooks_for(HookPolicy::Disabled, &hooks, HookStage::OnFailure).is_empty());
    let result = with_hook_failures(applied, &[]);
    assert!(result.success);
}

#[test]
fn enabled_policy_runs_the_stage_hooks_in_order() {
    let hooks = Hooks {
        pre_apply: vec![Hook::new("first"), Hook::new("second")],
        post_apply: vec![Hook::new("post")],
        on_failure: Vec::new(),
    };

    let pre = stage_hooks_for(HookPolicy::Enabled, &hooks, HookStage::PreApply);
    assert_eq!(pre, hooks.pre_apply);
    let post = stage_hooks_for(HookPolicy::Enabled, &hooks, HookStage::PostApply);
    assert_eq!(post, hooks.post_apply);
    assert!(stage_hooks_for(HookPolicy::Enabled, &hooks, HookStage::OnFailure).is_empty());
}
