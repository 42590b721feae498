use waytorandr::matcher::{MatchResult, Matcher};
use waytorandr::model::identity::OutputIdentity;
use waytorandr::model::{Mode, OutputState, Position, Topology, Transform};
use waytorandr::profile::{Hooks, OutputConfig, OutputMatcher, Profile};

fn make_topology() -> Topology {
    let mut state = OutputState::new("DP-1");
    state.identity.edid_hash = Some("abc123".to_string());
    state.identity.make = Some("Dell".to_string());
    state.identity.model = Some("U2720Q".to_string());
    state.identity.serial = Some("SN001".to_string());
    state.identity.description = Some("Dell U2720Q".to_string());
    state.identity.is_virtual = false;
    state.identity.is_ignored = false;
    state.enabled = true;
    state.mode = Some(Mode {
        width: 3840,
        height: 2160,
        refresh: 60,
    });
    state.position = Position { x: 0, y: 0 };
    state.scale = 1.0f64.to_bits();
    state.transform = Transform::Normal;
    state.mirror_target = None;
    state.backend_data = None;
    Topology {
        outputs: vec![("DP-1".to_string(), state)],
    }
}

fn state_of<'a>(topology: &'a Topology, name: &str) -> &'a OutputState {
    &topology
        .outputs
        .iter()
        .find(|(n, _)| n == name)
        .expect("the topology names the output")
        .1
}

fn duplicate_topology() -> Topology {
    let mut left = state_of(&make_topology(), "DP-1").clone();
    left.identity.connector = None;
    left.position = Position::new(0, 0);
    let mut right = state_of(&make_topology(), "DP-1").clone();
    right.identity.connector = None;
    right.position = Position::new(3840, 0);
    Topology {
        outputs: vec![("DP-1".to_string(), left), ("DP-2".to_string(), right)],
    }
}

fn bound<'a>(result: &'a MatchResult, topology_name: &str) -> Option<&'a str> {
    result
        .matched_outputs
        .iter()
        .find(|b| b.topology_name == topology_name)
        .map(|b| b.layout_name.as_str())
}

fn output_state(identity: &OutputIdentity, position: Position) -> OutputState {
    let mut state = OutputState::new(identity.connector.as_deref().unwrap_or("DP-1"));
    state.identity = identity.clone();
    state.enabled = true;
    state.position = position;
    state
}

fn edid_profile(edid: &str, topo: &Topology) -> Profile {
    Profile {
        name: "test".to_string(),
        priority: 0,
        match_rules: vec![OutputMatcher {
            identity: OutputIdentity {
                edid_hash: Some(edid.to_string()),
                ..OutputIdentity::default()
            },
            required: true,
            position_hint: None,
        }],
        layout: vec![(
            "layout-1".to_string(),
            OutputConfig {
                state: state_of(topo, "DP-1").clone(),
                preset: None,
            },
        )],
        hooks: Hooks::default(),
    }
}

#[test]
fn test_exact_edid_match() {
    let topo = make_topology();
    let profile = edid_profile("abc123", &topo);
    let result = Matcher::match_profile(&topo, &[profile]);
    assert!(result.is_some());
    let result = result.expect("a match");
    assert_eq!(result.profile.name, "test");
    assert!(result.unmatched_required.is_empty());
    assert_eq!(bound(&result, "DP-1"), Some("layout-1"));
}

#[test]
fn test_missing_required() {
    let topo = make_topology();
    let profile = edid_profile("missing", &topo);
    let result = Matcher::match_profile(&topo, &[profile]);
    assert!(result.is_none());
}

#[test]
fn duplicate_monitors_bind_one_to_one_with_position_hints() {
    let topology = duplicate_topology();
    let identity = OutputIdentity {
        edid_hash: Some("abc123".to_string()),
        make: Some("Dell".to_string()),
        model: Some("U2720Q".to_string()),
        serial: Some("SN001".to_string()),
        description: Some("Dell U2720Q".to_string()),
        ..OutputIdentity::default()
    };
    let profile = Profile {
        name: "desk".to_string(),
        priority: 0,
        match_rules: vec![
            OutputMatcher::new(identity.clone(), true, Some(Position::new(0, 0))),
            OutputMatcher::new(identity.clone(), true, Some(Position::new(3840, 0))),
        ],
        layout: vec![
            (
                "left".to_string(),
                OutputConfig {
                    state: {
                        let mut state = output_state(&identity, Position::new(0, 0));
                        state.identity.connector = None;
                        state
                    },
                    preset: None,
                },
            ),
            (
                "right".to_string(),
                OutputConfig {
                    state: {
                        let mut state = output_state(&identity, Position::new(3840, 0));
                        state.identity.connector = None;
                        state
                    },
                    preset: None,
                },
            ),
        ],
        hooks: Hooks::default(),
    };

    let result = Matcher::match_profile(&topology, &[profile]).expect("a match");
    assert_eq!(result.matched_outputs.len(), 2);
    assert_eq!(bound(&result, "DP-1"), Some("left"));
    assert_eq!(bound(&result, "DP-2"), Some("right"));
}

#[test]
fn exact_match_rejects_extra_real_outputs() {
    let mut topology = make_topology();
    topology.outputs.push(("HDMI-A-1".to_string(), {
        let mut state = OutputState::new("HDMI-A-1");
        state.enabled = true;
        state
    }));
    let profile = Profile {
        name: "desk".to_string(),
        priority: 0,
        match_rules: vec![OutputMatcher::new(
            OutputIdentity::new("DP-1"),
            true,
            Some(Position::new(0, 0)),
        )],
        layout: vec![(
            "left".to_string(),
            OutputConfig {
                state: state_of(&topology, "DP-1").clone(),
                preset: None,
            },
        )],
        hooks: Hooks::default(),
    };

    let extra = Matcher::match_profile(&topology, std::slice::from_ref(&profile)).expect("a loose match");
    assert_eq!(extra.extra_outputs, vec!["HDMI-A-1".to_string()]);
    assert!(Matcher::match_profile_exact(&topology, &[profile]).is_none());
}

#[test]
fn one_live_output_is_bound_by_one_rule_only() {
    // Two rules that both match the single output: the output is bound once,
    // and the second (required) rule stays unbound, so the profile does not match.
    let topology = make_topology();
    let identity = OutputIdentity {
        edid_hash: Some("abc123".to_string()),
        ..OutputIdentity::default()
    };
    let profile = Profile {
        name: "twice".to_string(),
        priority: 0,
        match_rules: vec![
            OutputMatcher::new(identity.clone(), true, None),
            OutputMatcher::new(identity.clone(), true, None),
        ],
        layout: vec![
            (
                "a".to_string(),
                OutputConfig {
                    state: state_of(&topology, "DP-1").clone(),
                    preset: None,
                },
            ),
            (
                "b".to_string(),
                OutputConfig {
                    state: state_of(&topology, "DP-1").clone(),
                    preset: None,
                },
            ),
        ],
        hooks: Hooks::default(),
    };
    assert!(Matcher::match_profile(&topology, &[profile]).is_none());
}
