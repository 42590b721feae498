use waytorandr::engine::{ApplyResult, TestResult, ValidationStatus};
use waytorandr::error::CoreError;
use waytorandr::model::backend::BackendKind;
use waytorandr::model::identity::OutputIdentity;
use waytorandr::model::{OutputState, Position, Topology};
use waytorandr::planner::LayoutPlan;
use waytorandr::profile::{Hooks, OutputConfig, OutputMatcher, Profile};
use waytorandr::state::State;
use waytorandr::store::ProfilesSettings;
use waytorandr::workflow::{
    blank_plan_rejection, current_profile_name, plan_profile_for_topology, profile_from_topology,
    select_profile_application_target, select_profile_for_topology,
    select_trusted_target_for_topology, validation_blocks_apply, ApplyExecution, ApplyPolicy,
    ProfileSelectionDecision, ValidationExecution,
};

fn topology(entries: Vec<(&str, OutputState)>) -> Topology {
    Topology {
        outputs: entries
            .into_iter()
            .map(|(n, s)| (n.to_string(), s))
            .collect(),
    }
}

fn planned<'a>(plan: &'a LayoutPlan, name: &str) -> Option<&'a OutputState> {
    plan.outputs.iter().find(|(n, _)| n == name).map(|(_, s)| s)
}

fn remembered<'a>(state: &'a State, fingerprint: &str) -> Option<&'a Topology> {
    state
        .remembered_setups
        .iter()
        .find(|(f, _)| f == fingerprint)
        .map(|(_, t)| t)
}

/// A connected output identified by make and model as well as connector.
fn output(connector: &str) -> OutputState {
    let mut state = OutputState::new(connector);
    state.identity.make = Some("Test".to_string());
    state.identity.model = Some(connector.to_string());
    state.enabled = true;
    state
}

fn profile(name: &str, connector: &str) -> Profile {
    let output = output(connector);
    Profile {
        name: name.to_string(),
        priority: 0,
        match_rules: vec![OutputMatcher {
            identity: output.identity.clone(),
            required: true,
            position_hint: Some(Position::default()),
        }],
        layout: vec![(connector.to_string(), OutputConfig { state: output, preset: None })],
        hooks: Hooks::default(),
    }
}

/// A connected output known by its connector only.
fn selection_output_state(connector: &str) -> OutputState {
    let mut state = OutputState::new(connector);
    state.enabled = true;
    state
}

fn selection_profile(name: &str, connector: &str) -> Profile {
    Profile {
        name: name.to_string(),
        priority: 0,
        match_rules: vec![OutputMatcher {
            identity: OutputIdentity::new(connector),
            required: true,
            position_hint: Some(Position::default()),
        }],
        layout: vec![(
            connector.to_string(),
            OutputConfig {
                state: selection_output_state(connector),
                preset: None,
            },
        )],
        hooks: Hooks::default(),
    }
}

#[test]
fn select_profile_prefers_setup_default_before_match() {
    let topology = topology(vec![("DP-1", output("DP-1"))]);
    let mut settings = ProfilesSettings::default();
    settings.set_setup_default_profile(&topology.setup_fingerprint(), "external-only");
    let profiles = vec![profile("both", "DP-1"), profile("external-only", "DP-1")];
    let selected = select_profile_for_topology(&topology, &profiles, &settings).expect("a profile");
    assert_eq!(selected.name, "external-only");
}

#[test]
fn select_profile_uses_matching_profile_without_fallback() {
    let topology = topology(vec![("DP-1", output("DP-1"))]);
    let settings = ProfilesSettings::default();
    let profiles = vec![profile("desk", "DP-1"), profile("fallback", "HDMI-A-1")];
    let selected = select_profile_for_topology(&topology, &profiles, &settings).expect("a profile");
    assert_eq!(selected.name, "desk");
}

#[test]
fn workflow_current_profile_name_uses_recorded_profile_when_it_still_matches() {
    let topology = topology(vec![("DP-1", output("DP-1"))]);
    let profiles = vec![profile("desk", "DP-1")];
    let mut state = State::default();
    state.last_profile = Some("desk".to_string());
    let selected = current_profile_name(&topology, &profiles, &state);
    assert_eq!(selected.as_deref(), Some("desk"));
}

#[test]
fn workflow_current_profile_name_returns_none_when_recorded_profile_is_stale() {
    let topology = topology(vec![("DP-1", output("DP-1"))]);
    let profiles = vec![profile("desk", "DP-1"), profile("manual", "HDMI-A-1")];
    let mut state = State::default();
    state.last_profile = Some("manual".to_string());
    let selected = current_profile_name(&topology, &profiles, &state);
    assert_eq!(selected, None);
}

#[test]
fn workflow_current_profile_name_returns_none_without_recorded_profile() {
    let topology = topology(vec![("DP-1", output("DP-1"))]);
    let profiles = vec![profile("desk", "DP-1")];
    let selected = current_profile_name(&topology, &profiles, &State::default());
    assert_eq!(selected, None);
}

#[test]
fn workflow_current_profile_name_rejects_profiles_when_topology_has_extra_real_outputs() {
    let topology = topology(vec![("DP-1", output("DP-1")), ("HDMI-A-1", output("HDMI-A-1"))]);
    let profiles = vec![profile("desk", "DP-1")];
    let mut state = State::default();
    state.last_profile = Some("desk".to_string());
    assert_eq!(current_profile_name(&topology, &profiles, &state), None);
}

#[test]
fn workflow_profile_from_topology_builds_matchers_from_real_outputs() {
    let mut virtual_output = output("HEADLESS-1");
    virtual_output.identity.is_virtual = true;
    let mut dp = output("DP-1");
    dp.enabled = false;
    let topology = topology(vec![("DP-1", dp), ("HEADLESS-1", virtual_output)]);
    let profile = profile_from_topology("desk", &topology);
    assert_eq!(profile.name, "desk");
    assert_eq!(profile.layout.len(), 2);
    assert_eq!(profile.match_rules.len(), 1);
    assert_eq!(profile.match_rules[0].identity.connector.as_deref(), Some("DP-1"));
    assert!(!profile.match_rules[0].required);
}

#[test]
fn workflow_plan_profile_for_topology_returns_mismatch_error_for_nonmatching_profile() {
    let topology = topology(vec![("DP-1", output("DP-1"))]);
    let profile = profile("desk", "HDMI-A-1");
    let result = plan_profile_for_topology(&profile, &topology);
    assert!(matches!(result, Err(CoreError::ProfileMismatch)));
}

#[test]
fn workflow_plan_profile_for_topology_uses_matched_layout_binding() {
    let topology = topology(vec![("DP-1", output("DP-1"))]);
    let profile = Profile {
        name: "desk".to_string(),
        priority: 0,
        match_rules: vec![OutputMatcher {
            identity: OutputIdentity::new("DP-1"),
            required: true,
            position_hint: Some(Position::default()),
        }],
        layout: vec![(
            "left-panel".to_string(),
            OutputConfig { state: output("DP-1"), preset: None },
        )],
        hooks: Hooks::default(),
    };
    let plan = plan_profile_for_topology(&profile, &topology).expect("a plan");
    assert!(planned(&plan, "DP-1").is_some());
    assert_eq!(planned(&plan, "DP-1").expect("DP-1").identity.connector.as_deref(), Some("DP-1"));
}

#[test]
fn workflow_plan_profile_for_topology_rejects_extra_real_outputs() {
    let topology = topology(vec![("DP-1", output("DP-1")), ("HDMI-A-1", output("HDMI-A-1"))]);
    assert!(matches!(
        plan_profile_for_topology(&profile("desk", "DP-1"), &topology),
        Err(CoreError::ProfileMismatch)
    ));
}

#[test]
fn select_profile_for_topology_prefers_setup_default_before_match() {
    let topology = topology(vec![("DP-1", selection_output_state("DP-1"))]);
    let mut settings = ProfilesSettings::default();
    settings.set_setup_default_profile(&topology.setup_fingerprint(), "external-only");
    let profiles = vec![selection_profile("both", "DP-1"), selection_profile("external-only", "DP-1")];
    let selected = select_profile_for_topology(&topology, &profiles, &settings).expect("a profile");
    assert_eq!(selected.name, "external-only");
}

#[test]
fn select_profile_for_topology_uses_matching_profile_without_fallback() {
    let topology = topology(vec![("DP-1", selection_output_state("DP-1"))]);
    let settings = ProfilesSettings::default();
    let profiles = vec![selection_profile("desk", "DP-1"), selection_profile("fallback", "HDMI-A-1")];
    let selected = select_profile_for_topology(&topology, &profiles, &settings).expect("a profile");
    assert_eq!(selected.name, "desk");
}

#[test]
fn selection_current_profile_name_uses_recorded_profile_when_it_still_matches() {
    let topology = topology(vec![("DP-1", selection_output_state("DP-1"))]);
    let profiles = vec![selection_profile("desk", "DP-1")];
    let mut state = State::default();
    state.last_profile = Some("desk".to_string());
    let selected = current_profile_name(&topology, &profiles, &state);
    assert_eq!(selected.as_deref(), Some("desk"));
}

#[test]
fn selection_current_profile_name_returns_none_when_recorded_profile_is_stale() {
    let topology = topology(vec![("DP-1", selection_output_state("DP-1"))]);
    let profiles = vec![selection_profile("desk", "DP-1"), selection_profile("manual", "HDMI-A-1")];
    let mut state = State::default();
    state.last_profile = Some("manual".to_string());
    let selected = current_profile_name(&topology, &profiles, &state);
    assert_eq!(selected, None);
}

#[test]
fn selection_current_profile_name_returns_none_without_recorded_profile() {
    let topology = topology(vec![("DP-1", selection_output_state("DP-1"))]);
    let profiles = vec![selection_profile("desk", "DP-1")];
    let selected = current_profile_name(&topology, &profiles, &State::default());
    assert_eq!(selected, None);
}

#[test]
fn selection_current_profile_name_rejects_profiles_when_topology_has_extra_real_outputs() {
    let topology = topology(vec![("DP-1", selection_output_state("DP-1")), ("HDMI-A-1", selection_output_state("HDMI-A-1"))]);
    let profiles = vec![selection_profile("desk", "DP-1")];
    let mut state = State::default();
    state.last_profile = Some("desk".to_string());
    assert_eq!(current_profile_name(&topology, &profiles, &state), None);
}

#[test]
fn selection_profile_from_topology_builds_matchers_from_real_outputs() {
    let mut virtual_output = selection_output_state("HEADLESS-1");
    virtual_output.identity.is_virtual = true;
    let mut dp = selection_output_state("DP-1");
    dp.enabled = false;
    let topology = topology(vec![("DP-1", dp), ("HEADLESS-1", virtual_output)]);
    let profile = profile_from_topology("desk", &topology);
    assert_eq!(profile.name, "desk");
    assert_eq!(profile.layout.len(), 2);
    assert_eq!(profile.match_rules.len(), 1);
    assert_eq!(profile.match_rules[0].identity.connector.as_deref(), Some("DP-1"));
    assert!(!profile.match_rules[0].required);
}

#[test]
fn selection_plan_profile_for_topology_returns_mismatch_error_for_nonmatching_profile() {
    let topology = topology(vec![("DP-1", selection_output_state("DP-1"))]);
    let profile = selection_profile("desk", "HDMI-A-1");
    let result = plan_profile_for_topology(&profile, &topology);
    assert!(matches!(result, Err(CoreError::ProfileMismatch)));
}

#[test]
fn selection_plan_profile_for_topology_uses_matched_layout_binding() {
    let topology = topology(vec![("DP-1", selection_output_state("DP-1"))]);
    let profile = Profile {
        name: "desk".to_string(),
        priority: 0,
        match_rules: vec![OutputMatcher {
            identity: OutputIdentity::new("DP-1"),
            required: true,
            position_hint: Some(Position::default()),
        }],
        layout: vec![(
            "left-panel".to_string(),
            OutputConfig { state: selection_output_state("DP-1"), preset: None },
        )],
        hooks: Hooks::default(),
    };
    let plan = plan_profile_for_topology(&profile, &topology).expect("a plan");
    assert!(planned(&plan, "DP-1").is_some());
    assert_eq!(planned(&plan, "DP-1").expect("DP-1").identity.connector.as_deref(), Some("DP-1"));
}

#[test]
fn selection_plan_profile_for_topology_rejects_extra_real_outputs() {
    let topology = topology(vec![("DP-1", selection_output_state("DP-1")), ("HDMI-A-1", selection_output_state("HDMI-A-1"))]);
    assert!(matches!(
        plan_profile_for_topology(&selection_profile("desk", "DP-1"), &topology),
        Err(CoreError::ProfileMismatch)
    ));
}

#[test]
fn select_profile_refuses_connector_only_topology() {
    let mut weak_output = OutputState::new("DP-1");
    weak_output.enabled = true;
    let topology = topology(vec![("DP-1", weak_output.clone())]);
    let profile = Profile {
        name: "desk".to_string(),
        priority: 0,
        match_rules: vec![OutputMatcher {
            identity: weak_output.identity.clone(),
            required: true,
            position_hint: Some(Position::default()),
        }],
        layout: vec![("DP-1".to_string(), OutputConfig { state: weak_output, preset: None })],
        hooks: Hooks::default(),
    };
    let selected = select_trusted_target_for_topology(&topology, &[profile], &ProfilesSettings::default());
    assert!(selected.is_none());
}

#[test]
fn workflow_record_applied_profile_updates_runtime_state() {
    let mut state = State::default();
    let topology = topology(vec![("DP-1", output("DP-1"))]);
    state.record_applied_profile("desk", Some(BackendKind::Wlroots), &topology);
    assert_eq!(state.last_profile.as_deref(), Some("desk"));
    assert_eq!(state.backend, Some(BackendKind::Wlroots));
    assert!(state.last_topology_fingerprint.is_some());
    assert_eq!(
        remembered(&state, &topology.setup_fingerprint()).map(Topology::fingerprint),
        Some(topology.fingerprint())
    );
}

#[test]
fn record_observed_topology_clears_last_profile_and_remembers_setup() {
    let mut state = State::default();
    state.last_profile = Some("desk".to_string());
    let topology = topology(vec![("DP-1", output("DP-1"))]);
    state.record_observed_topology(Some(BackendKind::Wlroots), &topology);
    assert_eq!(state.last_profile, None);
    assert_eq!(state.backend, Some(BackendKind::Wlroots));
    assert_eq!(
        remembered(&state, &topology.setup_fingerprint()).map(Topology::fingerprint),
        Some(topology.fingerprint())
    );
}

#[test]
fn persist_applied_runtime_state_records_profile_and_topology() {
    let mut state = State::default();
    let mut topology = Topology::new();
    topology.insert("DP-1".to_string(), selection_output_state("DP-1"));
    state.record_applied_profile("desk", Some(BackendKind::Wlroots), &topology);
    assert_eq!(state.last_profile.as_deref(), Some("desk"));
    assert_eq!(state.backend, Some(BackendKind::Wlroots));
    assert_eq!(
        remembered(&state, &topology.setup_fingerprint()).map(Topology::fingerprint),
        Some(topology.fingerprint())
    );
}

#[test]
fn persist_observed_runtime_state_clears_profile_and_remembers_setup() {
    let mut state = State::default();
    let mut topology = Topology::new();
    topology.insert("eDP-1".to_string(), selection_output_state("eDP-1"));
    state.record_applied_profile("desk", Some(BackendKind::Wlroots), &topology);
    state.record_observed_topology(Some(BackendKind::KScreen), &topology);
    assert_eq!(state.last_profile, None);
    assert_eq!(state.backend, Some(BackendKind::KScreen));
    assert_eq!(
        remembered(&state, &topology.setup_fingerprint()).map(Topology::fingerprint),
        Some(topology.fingerprint())
    );
}

#[test]
fn select_profile_application_target_uses_remembered_layout_after_profile_miss() {
    let topology = topology(vec![("DP-1", selection_output_state("DP-1"))]);
    let settings = ProfilesSettings::default();
    let profiles = vec![selection_profile("dock", "HDMI-A-1")];
    let mut state = State::default();
    state.remembered_setups.push((topology.setup_fingerprint(), topology.clone()));
    let selected = select_profile_application_target(&topology, &profiles, &settings, &state);
    assert!(matches!(selected, ProfileSelectionDecision::RememberedLayout(_)));
}

#[test]
fn select_profile_application_target_rejects_disabled_remembered_layout() {
    let mut remembered_output = selection_output_state("DP-1");
    remembered_output.enabled = false;
    let topology = topology(vec![("DP-1", selection_output_state("DP-1"))]);
    let settings = ProfilesSettings::default();
    let profiles = vec![selection_profile("dock", "HDMI-A-1")];
    let mut state = State::default();
    state.remembered_setups.push((
        topology.setup_fingerprint(),
        Topology {
            outputs: vec![("DP-1".to_string(), remembered_output)],
        },
    ));
    assert!(matches!(
        select_profile_application_target(&topology, &profiles, &settings, &state),
        ProfileSelectionDecision::NoMatch
    ));
}

fn one_output_plan() -> LayoutPlan {
    LayoutPlan::new(vec![("DP-1".to_string(), output("DP-1"))])
}

#[test]
fn workflow_execute_plan_cycle_skips_apply_on_dry_run() {
    let execution = ValidationExecution::from_validation(one_output_plan(), TestResult::supported(None));
    match execution {
        ValidationExecution::Accepted { validation, .. } => {
            assert!(validation.success);
            assert!(validation.is_accepted());
        }
        _ => panic!("expected an accepted dry run"),
    }
}

#[test]
fn workflow_execute_plan_cycle_applies_after_successful_validation() {
    let validation = TestResult::supported(None);
    assert!(!validation_blocks_apply(&validation, &ApplyPolicy::default()));
    let plan = one_output_plan();
    let applied = Topology {
        outputs: plan.outputs.clone(),
    };
    let result = ApplyResult::applied(None, Some(applied.clone()));
    match ApplyExecution::finished(plan, validation, result, applied) {
        ApplyExecution::Applied {
            validation,
            apply_result,
            ..
        } => {
            assert!(validation.success);
            assert!(validation.is_accepted());
            assert!(apply_result.success);
        }
        _ => panic!("expected an applied cycle"),
    }
}

#[test]
fn apply_with_planner_rejects_blank_plan_before_backend_calls() {
    let mut off = output("DP-1");
    off.enabled = false;
    let plan = LayoutPlan::new(vec![("DP-1".to_string(), off)]);
    let validation = blank_plan_rejection(&plan).expect("a blank plan is refused");
    match ApplyExecution::blocked(plan, validation) {
        ApplyExecution::Rejected { validation, .. } => {
            assert_eq!(validation.status, ValidationStatus::Rejected);
        }
        _ => panic!("expected blank plan rejection"),
    }
    assert!(blank_plan_rejection(&one_output_plan()).is_none());
}

#[test]
fn execute_plan_cycle_blocks_apply_when_validation_is_unsupported() {
    let validation = TestResult::unsupported(None);
    assert!(validation_blocks_apply(&validation, &ApplyPolicy::default()));
    match ApplyExecution::blocked(one_output_plan(), validation) {
        ApplyExecution::Unsupported { validation, .. } => {
            assert_eq!(validation.status, ValidationStatus::Unsupported);
            assert!(!validation.success);
        }
        _ => panic!("expected unsupported cycle"),
    }
    let allowing = ApplyPolicy {
        allow_unsupported_validation: true,
        ..ApplyPolicy::default()
    };
    assert!(!validation_blocks_apply(&TestResult::unsupported(None), &allowing));
}
