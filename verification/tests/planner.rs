use waytorandr::matcher::MatchedOutputBinding;
use waytorandr::model::{Mode, OutputIdentity, OutputState, Position, Topology, Transform, VirtualPreset};
use waytorandr::planner::{detect_preset, LayoutPlan, Planner};
use waytorandr::profile::{Hooks, OutputConfig, OutputMatcher, Profile};

fn planner_output_state(connector: &str, width: u32, height: u32) -> OutputState {
    let mut state = OutputState::new(connector);
    let mode = Mode::new(width, height, 60);
    state.enabled = true;
    state.mode = Some(mode);
    state.available_modes = vec![mode];
    state.position = Position::default();
    state.scale = 1.0f64.to_bits();
    state.transform = Transform::Normal;
    state.mirror_target = None;
    state.backend_data = None;
    state
}

fn topology(entries: Vec<(&str, OutputState)>) -> Topology {
    Topology {
        outputs: entries
            .into_iter()
            .map(|(name, state)| (name.to_string(), state))
            .collect(),
    }
}

fn out<'a>(plan: &'a LayoutPlan, name: &str) -> &'a OutputState {
    &plan
        .outputs
        .iter()
        .find(|(n, _)| n == name)
        .expect("the plan names the output")
        .1
}

fn built_in(connector: &str, width: u32, height: u32) -> OutputState {
    let mut state = planner_output_state(connector, width, height);
    state.identity.description = Some("Built-in display".to_string());
    state
}

fn preset(p: VirtualPreset, t: &Topology) -> LayoutPlan {
    Planner::plan_from_preset(p, t, None, None).expect("the preset plans")
}

fn preset_output_state(connector: &str, enabled: bool, mode: Mode) -> OutputState {
    let mut state = OutputState::new(connector);
    state.enabled = enabled;
    state.mode = Some(mode);
    state.available_modes = vec![mode];
    state
}

#[test]
fn planner_horizontal_reverse_uses_reverse_order() {
    let topology = topology(vec![
        ("A", planner_output_state("A", 100, 50)),
        ("B", planner_output_state("B", 200, 50)),
    ]);
    let plan = preset(VirtualPreset::HorizontalReverse, &topology);
    assert_eq!(out(&plan, "B").position.x, 0);
    assert_eq!(out(&plan, "A").position.x, 200);
}

#[test]
fn planner_common_clones_outputs_to_origin() {
    let mut a = planner_output_state("A", 1920, 1080);
    a.available_modes = vec![Mode::new(1920, 1080, 60), Mode::new(1280, 720, 60)];
    let mut b = planner_output_state("B", 2560, 1440);
    b.available_modes = vec![Mode::new(2560, 1440, 60), Mode::new(1920, 1080, 60)];
    b.enabled = false;
    let topology = topology(vec![("A", a), ("B", b)]);
    let plan = preset(VirtualPreset::Common, &topology);
    assert_eq!(out(&plan, "A").position, Position::new(0, 0));
    assert_eq!(out(&plan, "B").position, Position::new(0, 0));
    assert!(out(&plan, "A").enabled);
    assert!(out(&plan, "B").enabled);
    assert_eq!(out(&plan, "A").mode, Some(Mode::new(1920, 1080, 60)));
    assert_eq!(out(&plan, "B").mode, Some(Mode::new(1920, 1080, 60)));
}

#[test]
fn planner_largest_overlaps_outputs_at_each_outputs_best_mode() {
    let mut a = planner_output_state("A", 1920, 1080);
    a.available_modes = vec![Mode::new(1920, 1080, 60), Mode::new(1280, 720, 60)];
    let mut b = planner_output_state("B", 2560, 1440);
    b.available_modes = vec![Mode::new(2560, 1440, 60), Mode::new(1920, 1080, 60)];
    let topology = topology(vec![("A", a), ("B", b)]);
    let plan = preset(VirtualPreset::Largest, &topology);
    assert_eq!(out(&plan, "A").position, Position::new(0, 0));
    assert_eq!(out(&plan, "B").position, Position::new(0, 0));
    assert_eq!(out(&plan, "A").mode, Some(Mode::new(1920, 1080, 60)));
    assert_eq!(out(&plan, "B").mode, Some(Mode::new(2560, 1440, 60)));
    assert_eq!(out(&plan, "A").mirror_target, None);
    assert_eq!(out(&plan, "B").mirror_target, None);
}

#[test]
fn planner_mirror_targets_secondary_outputs_at_primary() {
    let mut a = planner_output_state("A", 1920, 1080);
    a.available_modes = vec![Mode::new(1920, 1080, 60), Mode::new(1280, 720, 60)];
    let mut b = planner_output_state("B", 1280, 720);
    b.available_modes = vec![Mode::new(1280, 720, 60), Mode::new(1024, 768, 60)];
    let topology = topology(vec![("A", a), ("B", b)]);
    let plan = preset(VirtualPreset::Mirror, &topology);
    assert_eq!(out(&plan, "A").position, Position::new(0, 0));
    assert_eq!(out(&plan, "B").position, Position::new(0, 0));
    assert_eq!(out(&plan, "A").mirror_target, None);
    assert_eq!(out(&plan, "B").mirror_target.as_deref(), Some("A"));
    assert_eq!(out(&plan, "A").mode, Some(Mode::new(1280, 720, 60)));
    assert_eq!(out(&plan, "B").mode, Some(Mode::new(1280, 720, 60)));
}

#[test]
fn planner_mirror_prefers_lowest_active_mode_over_lowest_supported_mode() {
    let mut a = planner_output_state("A", 2560, 1440);
    a.available_modes = vec![
        Mode::new(2560, 1440, 60),
        Mode::new(1920, 1080, 60),
        Mode::new(800, 600, 60),
    ];
    let mut b = planner_output_state("B", 1920, 1080);
    b.available_modes = vec![
        Mode::new(1920, 1080, 60),
        Mode::new(1280, 720, 60),
        Mode::new(800, 600, 60),
    ];
    let topology = topology(vec![("A", a), ("B", b)]);
    let plan = preset(VirtualPreset::Mirror, &topology);
    assert_eq!(out(&plan, "A").mode, Some(Mode::new(1920, 1080, 60)));
    assert_eq!(out(&plan, "B").mode, Some(Mode::new(1920, 1080, 60)));
}

#[test]
fn planner_off_keeps_internal_outputs_enabled_and_disables_externals() {
    let topology = topology(vec![
        ("eDP-1", built_in("eDP-1", 1920, 1080)),
        ("DP-1", planner_output_state("DP-1", 1280, 720)),
    ]);
    let plan = preset(VirtualPreset::Off, &topology);
    assert!(out(&plan, "eDP-1").enabled);
    assert!(!out(&plan, "DP-1").enabled);
}

#[test]
fn planner_off_disables_all_outputs_when_no_internal_output_exists() {
    let topology = topology(vec![
        ("A", planner_output_state("A", 1920, 1080)),
        ("B", planner_output_state("B", 1280, 720)),
    ]);
    let plan = preset(VirtualPreset::Off, &topology);
    assert!(!out(&plan, "A").enabled);
    assert!(!out(&plan, "B").enabled);
}

#[test]
fn planner_builtin_keeps_internal_outputs_enabled_and_disables_externals() {
    let topology = topology(vec![
        ("eDP-1", built_in("eDP-1", 1920, 1080)),
        ("DP-1", planner_output_state("DP-1", 1280, 720)),
    ]);
    let plan = preset(VirtualPreset::Builtin, &topology);
    assert!(out(&plan, "eDP-1").enabled);
    assert!(!out(&plan, "DP-1").enabled);
}

#[test]
fn planner_builtin_errors_when_no_internal_output_exists() {
    let topology = topology(vec![("DP-1", planner_output_state("DP-1", 1920, 1080))]);
    let Err(err) = Planner::plan_from_preset(VirtualPreset::Builtin, &topology, None, None) else {
        panic!("builtin should require an internal output");
    };
    assert_eq!(
        err.to_string(),
        "Invalid configuration: No built-in display is available for the `builtin` preset"
    );
}

#[test]
fn planner_builtin_uses_configured_output_override() {
    let topology = topology(vec![
        ("DP-1", planner_output_state("DP-1", 1920, 1080)),
        ("HDMI-A-1", planner_output_state("HDMI-A-1", 1280, 720)),
    ]);
    let builtin_output = OutputIdentity::new("DP-1");
    let plan = Planner::plan_from_preset(VirtualPreset::Builtin, &topology, Some(&builtin_output), None)
        .expect("the preset plans");
    assert!(out(&plan, "DP-1").enabled);
    assert!(!out(&plan, "HDMI-A-1").enabled);
}

#[test]
fn planner_horizontal_includes_disabled_connected_outputs() {
    let mut b = planner_output_state("B", 1280, 720);
    b.enabled = false;
    let topology = topology(vec![("A", planner_output_state("A", 1920, 1080)), ("B", b)]);
    let plan = preset(VirtualPreset::Horizontal, &topology);
    assert!(out(&plan, "A").enabled);
    assert!(out(&plan, "B").enabled);
    assert_eq!(out(&plan, "A").position, Position::new(0, 0));
    assert_eq!(out(&plan, "B").position, Position::new(1920, 0));
}

#[test]
fn planner_vertical_centers_outputs_horizontally() {
    let topology = topology(vec![
        ("A", planner_output_state("A", 3440, 1440)),
        ("B", planner_output_state("B", 2560, 1440)),
        ("C", planner_output_state("C", 1920, 1080)),
    ]);
    let plan = preset(VirtualPreset::Vertical, &topology);
    assert_eq!(out(&plan, "A").position, Position::new(0, 0));
    assert_eq!(out(&plan, "B").position, Position::new(440, 1440));
    assert_eq!(out(&plan, "C").position, Position::new(760, 2880));
}

#[test]
fn planner_plan_from_profile_maps_layout_using_stable_identity() {
    let topology = topology(vec![("DP-1", {
        let mut state = OutputState::new("DP-1");
        state.identity.make = Some("Microstep".to_string());
        state.identity.model = Some("MSI MP273A".to_string());
        state.identity.serial = Some("PB4H603B02982".to_string());
        state.identity.description = Some("Microstep - MSI MP273A - DP-1".to_string());
        state.enabled = true;
        state.mode = Some(Mode::new(1920, 1080, 60));
        state.position = Position::new(400, 200);
        state.scale = 1.0f64.to_bits();
        state.transform = Transform::Normal;
        state.mirror_target = None;
        state.backend_data = None;
        state
    })]);
    let profile = Profile {
        name: "default".to_string(),
        priority: 0,
        match_rules: vec![OutputMatcher {
            identity: {
                let mut identity = OutputIdentity::new("DP-4");
                identity.make = Some("Microstep".to_string());
                identity.model = Some("MSI MP273A".to_string());
                identity.serial = Some("PB4H603B02982".to_string());
                identity.description = Some("Microstep - MSI MP273A - DP-4".to_string());
                identity
            },
            required: true,
            position_hint: Some(Position::new(0, 0)),
        }],
        layout: vec![(
            "DP-4".to_string(),
            OutputConfig {
                state: {
                    let mut state = OutputState::new("DP-4");
                    state.identity.make = Some("Microstep".to_string());
                    state.identity.model = Some("MSI MP273A".to_string());
                    state.identity.serial = Some("PB4H603B02982".to_string());
                    state.identity.description = Some("Microstep - MSI MP273A - DP-4".to_string());
                    state.enabled = false;
                    state.mode = Some(Mode::new(1920, 1080, 60));
                    state.position = Position::new(0, 0);
                    state.scale = 1.0f64.to_bits();
                    state.transform = Transform::Normal;
                    state.mirror_target = None;
                    state.backend_data = None;
                    state
                },
                preset: None,
            },
        )],
        hooks: Hooks::default(),
    };
    let matched_outputs = vec![MatchedOutputBinding {
        topology_name: "DP-1".to_string(),
        layout_name: "DP-4".to_string(),
    }];
    let plan = Planner::plan_from_profile(&profile, &matched_outputs, &topology).expect("the profile plans");
    assert!(!out(&plan, "DP-1").enabled);
    assert_eq!(out(&plan, "DP-1").position, Position::new(0, 0));
    assert_eq!(out(&plan, "DP-1").identity.connector.as_deref(), Some("DP-1"));
}

#[test]
fn planner_detect_preset_returns_virtual_preset() {
    let mut a = planner_output_state("A", 100, 50);
    a.position = Position::new(0, 0);
    let mut b = planner_output_state("B", 200, 50);
    b.position = Position::new(100, 0);
    let topology = topology(vec![("A", a), ("B", b)]);
    assert_eq!(detect_preset(&topology), Some(VirtualPreset::Horizontal));
}

#[test]
fn tests_horizontal_reverse_uses_reverse_order() {
    let topology = topology(vec![
        ("A", planner_output_state("A", 100, 50)),
        ("B", planner_output_state("B", 200, 50)),
    ]);
    let plan = preset(VirtualPreset::HorizontalReverse, &topology);
    assert_eq!(out(&plan, "B").position.x, 0);
    assert_eq!(out(&plan, "A").position.x, 200);
}

#[test]
fn tests_common_clones_outputs_to_origin() {
    let mut a = planner_output_state("A", 1920, 1080);
    a.available_modes = vec![Mode::new(1920, 1080, 60), Mode::new(1280, 720, 60)];
    let mut b = planner_output_state("B", 2560, 1440);
    b.available_modes = vec![Mode::new(2560, 1440, 60), Mode::new(1920, 1080, 60)];
    b.enabled = false;
    let topology = topology(vec![("A", a), ("B", b)]);
    let plan = preset(VirtualPreset::Common, &topology);
    assert_eq!(out(&plan, "A").position, Position::new(0, 0));
    assert_eq!(out(&plan, "B").position, Position::new(0, 0));
    assert!(out(&plan, "A").enabled);
    assert!(out(&plan, "B").enabled);
    assert_eq!(out(&plan, "A").mode, Some(Mode::new(1920, 1080, 60)));
    assert_eq!(out(&plan, "B").mode, Some(Mode::new(1920, 1080, 60)));
}

#[test]
fn tests_largest_overlaps_outputs_at_each_outputs_best_mode() {
    let mut a = planner_output_state("A", 1920, 1080);
    a.available_modes = vec![Mode::new(1920, 1080, 60), Mode::new(1280, 720, 60)];
    let mut b = planner_output_state("B", 2560, 1440);
    b.available_modes = vec![Mode::new(2560, 1440, 60), Mode::new(1920, 1080, 60)];
    let topology = topology(vec![("A", a), ("B", b)]);
    let plan = preset(VirtualPreset::Largest, &topology);
    assert_eq!(out(&plan, "A").position, Position::new(0, 0));
    assert_eq!(out(&plan, "B").position, Position::new(0, 0));
    assert_eq!(out(&plan, "A").mode, Some(Mode::new(1920, 1080, 60)));
    assert_eq!(out(&plan, "B").mode, Some(Mode::new(2560, 1440, 60)));
    assert_eq!(out(&plan, "A").mirror_target, None);
    assert_eq!(out(&plan, "B").mirror_target, None);
}

#[test]
fn tests_mirror_targets_secondary_outputs_at_primary() {
    let mut a = planner_output_state("A", 1920, 1080);
    a.available_modes = vec![Mode::new(1920, 1080, 60), Mode::new(1280, 720, 60)];
    let mut b = planner_output_state("B", 1280, 720);
    b.available_modes = vec![Mode::new(1280, 720, 60), Mode::new(1024, 768, 60)];
    let topology = topology(vec![("A", a), ("B", b)]);
    let plan = preset(VirtualPreset::Mirror, &topology);
    assert_eq!(out(&plan, "A").position, Position::new(0, 0));
    assert_eq!(out(&plan, "B").position, Position::new(0, 0));
    assert_eq!(out(&plan, "A").mirror_target, None);
    assert_eq!(out(&plan, "B").mirror_target.as_deref(), Some("A"));
    assert_eq!(out(&plan, "A").mode, Some(Mode::new(1280, 720, 60)));
    assert_eq!(out(&plan, "B").mode, Some(Mode::new(1280, 720, 60)));
}

#[test]
fn tests_mirror_prefers_lowest_active_mode_over_lowest_supported_mode() {
    let mut a = planner_output_state("A", 2560, 1440);
    a.available_modes = vec![
        Mode::new(2560, 1440, 60),
        Mode::new(1920, 1080, 60),
        Mode::new(800, 600, 60),
    ];
    let mut b = planner_output_state("B", 1920, 1080);
    b.available_modes = vec![
        Mode::new(1920, 1080, 60),
        Mode::new(1280, 720, 60),
        Mode::new(800, 600, 60),
    ];
    let topology = topology(vec![("A", a), ("B", b)]);
    let plan = preset(VirtualPreset::Mirror, &topology);
    assert_eq!(out(&plan, "A").mode, Some(Mode::new(1920, 1080, 60)));
    assert_eq!(out(&plan, "B").mode, Some(Mode::new(1920, 1080, 60)));
}

#[test]
fn tests_off_keeps_internal_outputs_enabled_and_disables_externals() {
    let topology = topology(vec![
        ("eDP-1", built_in("eDP-1", 1920, 1080)),
        ("DP-1", planner_output_state("DP-1", 1280, 720)),
    ]);
    let plan = preset(VirtualPreset::Off, &topology);
    assert!(out(&plan, "eDP-1").enabled);
    assert!(!out(&plan, "DP-1").enabled);
}

#[test]
fn tests_off_disables_all_outputs_when_no_internal_output_exists() {
    let topology = topology(vec![
        ("A", planner_output_state("A", 1920, 1080)),
        ("B", planner_output_state("B", 1280, 720)),
    ]);
    let plan = preset(VirtualPreset::Off, &topology);
    assert!(!out(&plan, "A").enabled);
    assert!(!out(&plan, "B").enabled);
}

#[test]
fn tests_builtin_keeps_internal_outputs_enabled_and_disables_externals() {
    let topology = topology(vec![
        ("eDP-1", built_in("eDP-1", 1920, 1080)),
        ("DP-1", planner_output_state("DP-1", 1280, 720)),
    ]);
    let plan = preset(VirtualPreset::Builtin, &topology);
    assert!(out(&plan, "eDP-1").enabled);
    assert!(!out(&plan, "DP-1").enabled);
}

#[test]
fn tests_builtin_errors_when_no_internal_output_exists() {
    let topology = topology(vec![("DP-1", planner_output_state("DP-1", 1920, 1080))]);
    let Err(err) = Planner::plan_from_preset(VirtualPreset::Builtin, &topology, None, None) else {
        panic!("builtin should require an internal output");
    };
    assert_eq!(
        err.to_string(),
        "Invalid configuration: No built-in display is available for the `builtin` preset"
    );
}

#[test]
fn tests_builtin_uses_configured_output_override() {
    let topology = topology(vec![
        ("DP-1", planner_output_state("DP-1", 1920, 1080)),
        ("HDMI-A-1", planner_output_state("HDMI-A-1", 1280, 720)),
    ]);
    let builtin_output = OutputIdentity::new("DP-1");
    let plan = Planner::plan_from_preset(VirtualPreset::Builtin, &topology, Some(&builtin_output), None)
        .expect("the preset plans");
    assert!(out(&plan, "DP-1").enabled);
    assert!(!out(&plan, "HDMI-A-1").enabled);
}

#[test]
fn tests_horizontal_includes_disabled_connected_outputs() {
    let mut b = planner_output_state("B", 1280, 720);
    b.enabled = false;
    let topology = topology(vec![("A", planner_output_state("A", 1920, 1080)), ("B", b)]);
    let plan = preset(VirtualPreset::Horizontal, &topology);
    assert!(out(&plan, "A").enabled);
    assert!(out(&plan, "B").enabled);
    assert_eq!(out(&plan, "A").position, Position::new(0, 0));
    assert_eq!(out(&plan, "B").position, Position::new(1920, 0));
}

#[test]
fn tests_vertical_centers_outputs_horizontally() {
    let topology = topology(vec![
        ("A", planner_output_state("A", 3440, 1440)),
        ("B", planner_output_state("B", 2560, 1440)),
        ("C", planner_output_state("C", 1920, 1080)),
    ]);
    let plan = preset(VirtualPreset::Vertical, &topology);
    assert_eq!(out(&plan, "A").position, Position::new(0, 0));
    assert_eq!(out(&plan, "B").position, Position::new(440, 1440));
    assert_eq!(out(&plan, "C").position, Position::new(760, 2880));
}

#[test]
fn tests_plan_from_profile_maps_layout_using_stable_identity() {
    let topology = topology(vec![("DP-1", {
        let mut state = OutputState::new("DP-1");
        state.identity.make = Some("Microstep".to_string());
        state.identity.model = Some("MSI MP273A".to_string());
        state.identity.serial = Some("PB4H603B02982".to_string());
        state.identity.description = Some("Microstep - MSI MP273A - DP-1".to_string());
        state.enabled = true;
        state.mode = Some(Mode::new(1920, 1080, 60));
        state.position = Position::new(400, 200);
        state.scale = 1.0f64.to_bits();
        state.transform = Transform::Normal;
        state.mirror_target = None;
        state.backend_data = None;
        state
    })]);
    let profile = Profile {
        name: "default".to_string(),
        priority: 0,
        match_rules: vec![OutputMatcher {
            identity: {
                let mut identity = OutputIdentity::new("DP-4");
                identity.make = Some("Microstep".to_string());
                identity.model = Some("MSI MP273A".to_string());
                identity.serial = Some("PB4H603B02982".to_string());
                identity.description = Some("Microstep - MSI MP273A - DP-4".to_string());
                identity
            },
            required: true,
            position_hint: Some(Position::new(0, 0)),
        }],
        layout: vec![(
            "DP-4".to_string(),
            OutputConfig {
                state: {
                    let mut state = OutputState::new("DP-4");
                    state.identity.make = Some("Microstep".to_string());
                    state.identity.model = Some("MSI MP273A".to_string());
                    state.identity.serial = Some("PB4H603B02982".to_string());
                    state.identity.description = Some("Microstep - MSI MP273A - DP-4".to_string());
                    state.enabled = false;
                    state.mode = Some(Mode::new(1920, 1080, 60));
                    state.position = Position::new(0, 0);
                    state.scale = 1.0f64.to_bits();
                    state.transform = Transform::Normal;
                    state.mirror_target = None;
                    state.backend_data = None;
                    state
                },
                preset: None,
            },
        )],
        hooks: Hooks::default(),
    };
    let matched_outputs = vec![MatchedOutputBinding {
        topology_name: "DP-1".to_string(),
        layout_name: "DP-4".to_string(),
    }];
    let plan = Planner::plan_from_profile(&profile, &matched_outputs, &topology).expect("the profile plans");
    assert!(!out(&plan, "DP-1").enabled);
    assert_eq!(out(&plan, "DP-1").position, Position::new(0, 0));
    assert_eq!(out(&plan, "DP-1").identity.connector.as_deref(), Some("DP-1"));
}

#[test]
fn tests_detect_preset_returns_virtual_preset() {
    let mut a = planner_output_state("A", 100, 50);
    a.position = Position::new(0, 0);
    let mut b = planner_output_state("B", 200, 50);
    b.position = Position::new(100, 0);
    let topology = topology(vec![("A", a), ("B", b)]);
    assert_eq!(detect_preset(&topology), Some(VirtualPreset::Horizontal));
}

#[test]
fn external_disables_internal_outputs_and_keeps_externals() {
    let topology = topology(vec![
        ("eDP-1", built_in("eDP-1", 1920, 1080)),
        ("DP-1", planner_output_state("DP-1", 1280, 720)),
    ]);
    let plan = preset(VirtualPreset::External, &topology);
    assert!(!out(&plan, "eDP-1").enabled);
    assert!(out(&plan, "DP-1").enabled);
}

#[test]
fn external_keeps_internal_outputs_when_no_external_exists() {
    let topology = topology(vec![("eDP-1", built_in("eDP-1", 1920, 1080))]);
    let plan = preset(VirtualPreset::External, &topology);
    assert!(out(&plan, "eDP-1").enabled);
}

#[test]
fn external_rebases_enabled_outputs_to_origin() {
    let topology = topology(vec![
        ("eDP-1", {
            let mut state = built_in("eDP-1", 1920, 1080);
            state.position = Position::new(0, 0);
            state
        }),
        ("DP-1", {
            let mut state = planner_output_state("DP-1", 2560, 1440);
            state.position = Position::new(1920, 40);
            state
        }),
        ("HDMI-A-1", {
            let mut state = planner_output_state("HDMI-A-1", 1920, 1080);
            state.position = Position::new(4480, 40);
            state
        }),
    ]);
    let plan = preset(VirtualPreset::External, &topology);
    assert!(!out(&plan, "eDP-1").enabled);
    assert_eq!(out(&plan, "eDP-1").position, Position::new(0, 0));
    assert!(out(&plan, "DP-1").enabled);
    assert!(out(&plan, "HDMI-A-1").enabled);
    assert_eq!(out(&plan, "DP-1").position, Position::new(0, 0));
    assert_eq!(out(&plan, "HDMI-A-1").position, Position::new(2560, 0));
}

#[test]
fn external_does_not_rebase_enabled_ignored_or_virtual_outputs() {
    let topology = topology(vec![
        ("eDP-1", {
            let mut state = built_in("eDP-1", 1920, 1080);
            state.position = Position::new(0, 0);
            state
        }),
        ("DP-1", {
            let mut state = planner_output_state("DP-1", 2560, 1440);
            state.position = Position::new(1920, 40);
            state
        }),
        ("VIRT-1", {
            let mut state = planner_output_state("VIRT-1", 1920, 1080);
            state.identity.is_virtual = true;
            state.position = Position::new(7000, 500);
            state
        }),
        ("IGNORED-1", {
            let mut state = planner_output_state("IGNORED-1", 800, 600);
            state.identity.is_ignored = true;
            state.position = Position::new(-300, 250);
            state
        }),
    ]);
    let plan = preset(VirtualPreset::External, &topology);
    assert_eq!(out(&plan, "DP-1").position, Position::new(0, 0));
    assert_eq!(out(&plan, "VIRT-1").position, Position::new(7000, 500));
    assert_eq!(out(&plan, "IGNORED-1").position, Position::new(-300, 250));
}

#[test]
fn builtin_preserves_virtual_and_ignored_output_layout_state() {
    let topology = topology(vec![
        ("eDP-1", {
            let mut state = built_in("eDP-1", 1920, 1080);
            state.position = Position::new(0, 0);
            state
        }),
        ("VIRT-1", {
            let mut state = planner_output_state("VIRT-1", 1920, 1080);
            state.identity.is_virtual = true;
            state.position = Position::new(7000, 500);
            state.mirror_target = Some("eDP-1".to_string());
            state
        }),
        ("IGNORED-1", {
            let mut state = planner_output_state("IGNORED-1", 800, 600);
            state.identity.is_ignored = true;
            state.position = Position::new(-300, 250);
            state.mirror_target = Some("eDP-1".to_string());
            state
        }),
    ]);
    let plan = preset(VirtualPreset::Builtin, &topology);
    assert_eq!(out(&plan, "VIRT-1").position, Position::new(7000, 500));
    assert_eq!(out(&plan, "IGNORED-1").position, Position::new(-300, 250));
    assert_eq!(out(&plan, "VIRT-1").mirror_target.as_deref(), Some("eDP-1"));
    assert_eq!(out(&plan, "IGNORED-1").mirror_target.as_deref(), Some("eDP-1"));
}

#[test]
fn external_preset_preserves_virtual_output_state() {
    let mut virtual_output = preset_output_state("HEADLESS-1", true, Mode::new(1280, 720, 60));
    virtual_output.identity.is_virtual = true;
    virtual_output.position = Position::new(40, 50);
    let plan = Planner::plan_from_preset(
        VirtualPreset::External,
        &topology(vec![
            ("eDP-1", preset_output_state("eDP-1", true, Mode::new(1920, 1080, 60))),
            ("DP-1", preset_output_state("DP-1", true, Mode::new(2560, 1440, 60))),
            ("HEADLESS-1", virtual_output.clone()),
        ]),
        Some(&OutputIdentity::new("eDP-1")),
        None,
    )
    .expect("the preset plans");
    assert!(!out(&plan, "eDP-1").enabled);
    assert!(out(&plan, "DP-1").enabled);
    assert_eq!(*out(&plan, "HEADLESS-1"), virtual_output);
}

#[test]
fn mirror_preset_chooses_primary_hint_as_root() {
    let plan = Planner::plan_from_preset(
        VirtualPreset::Mirror,
        &topology(vec![
            ("DP-1", preset_output_state("DP-1", true, Mode::new(1920, 1080, 60))),
            ("HDMI-A-1", preset_output_state("HDMI-A-1", true, Mode::new(1920, 1080, 60))),
        ]),
        None,
        Some("HDMI-A-1"),
    )
    .expect("the preset plans");
    assert_eq!(out(&plan, "HDMI-A-1").mirror_target, None);
    assert_eq!(out(&plan, "DP-1").mirror_target.as_deref(), Some("HDMI-A-1"));
}

#[test]
fn common_preset_rejects_outputs_without_shared_mode() {
    let Err(err) = Planner::plan_from_preset(
        VirtualPreset::Common,
        &topology(vec![
            ("DP-1", preset_output_state("DP-1", true, Mode::new(2560, 1440, 60))),
            ("HDMI-A-1", preset_output_state("HDMI-A-1", true, Mode::new(1280, 720, 60))),
        ]),
        None,
        None,
    ) else {
        panic!("common preset should require a shared mode");
    };
    assert_eq!(err.to_string(), "Invalid configuration: No common mode found");
}
