use waytorandr::backends::gnome::{
    apply_failure_from_apply_error, build_apply_config, export_current_state_topology,
    is_virtual_output, layout_mode_to_apply, logical_by_connector, transform_to_gnome,
    validation_rejection_from_apply_error, LogicalMonitorConfig, ModeResolution, MonitorInfo,
    MonitorModeInfo,
};
use waytorandr::backends::kscreen::{
    build_apply_args, build_apply_args_or_rejection, export_kscreen_topology, mirror_target_name,
    transform_from_kscreen, KScreenConfig, KScreenMode, KScreenOutput, KScreenSize,
    PlannedOutputFacts, ROTATION_FLIPPED_270, ROTATION_LEFT, ROTATION_NONE,
};
use waytorandr::backends::selection::{backends_for_env, parse_backend_override, SessionEnvironment};
use waytorandr::backends::wlroots::{
    apply_failure_from_submit_error, custom_mode_values, head_config, head_is_enabled,
    is_virtual_description, output_state_from_projection, plan_head_configs, transform_from_wl,
    transform_to_wl, update_identity_field, validate_requested_head_config,
    validation_rejection_from_submit_error, ConfigStatus, HeadConfig, ModeRequest, ProjectedHead,
    ProjectedMode,
};
use waytorandr::engine::ConfigFailureKind;
use waytorandr::model::backend::BackendKind;
use waytorandr::model::identity::OutputIdentity;
use waytorandr::model::{Mode, OutputState, Position, Topology, Transform};
use waytorandr::planner::LayoutPlan;

fn state_of<'a>(topology: &'a Topology, name: &str) -> &'a OutputState {
    &topology
        .outputs
        .iter()
        .find(|(n, _)| n == name)
        .expect("the topology names the output")
        .1
}

fn has(topology: &Topology, name: &str) -> bool {
    topology.outputs.iter().any(|(n, _)| n == name)
}

fn plan(entries: Vec<(&str, OutputState)>) -> LayoutPlan {
    LayoutPlan::new(
        entries
            .into_iter()
            .map(|(n, s)| (n.to_string(), s))
            .collect(),
    )
}

// ---------------------------------------------------------------------------
// Backend selection
// ---------------------------------------------------------------------------

#[test]
fn gnome_sessions_prefer_gnome_backend() {
    let env = SessionEnvironment {
        current_desktop: Some("GNOME".to_string()),
        ..SessionEnvironment::default()
    };
    assert_eq!(
        backends_for_env(&env),
        vec![BackendKind::Gnome, BackendKind::Wlroots, BackendKind::KScreen]
    );
}

#[test]
fn kde_sessions_prefer_kscreen_backend() {
    let env = SessionEnvironment {
        session_desktop: Some("plasma".to_string()),
        ..SessionEnvironment::default()
    };
    assert_eq!(
        backends_for_env(&env),
        vec![BackendKind::KScreen, BackendKind::Wlroots, BackendKind::Gnome]
    );
}

#[test]
fn unknown_sessions_prefer_wlroots_backend() {
    let env = SessionEnvironment {
        desktop_session: Some("niri".to_string()),
        ..SessionEnvironment::default()
    };
    assert_eq!(
        backends_for_env(&env),
        vec![BackendKind::Wlroots, BackendKind::KScreen, BackendKind::Gnome]
    );
}

#[test]
fn backend_override_accepts_known_labels() {
    assert_eq!(parse_backend_override("gnome"), Some(BackendKind::Gnome));
    assert_eq!(parse_backend_override("KDE"), Some(BackendKind::KScreen));
    assert_eq!(parse_backend_override("wlr"), Some(BackendKind::Wlroots));
}

#[test]
fn backend_override_rejects_unknown_labels() {
    assert_eq!(parse_backend_override("sway"), None);
}

// ---------------------------------------------------------------------------
// wlroots
// ---------------------------------------------------------------------------

#[test]
fn config_status_labels_are_stable_for_debug_logs() {
    assert_eq!(ConfigStatus::Succeeded.as_label(), "succeeded");
    assert_eq!(ConfigStatus::Failed.as_label(), "failed");
    assert_eq!(ConfigStatus::Cancelled.as_label(), "cancelled");
}

#[test]
fn mirror_target_is_structured_plan_rejection() {
    let mut desired = OutputState::new("HDMI-A-1");
    desired.mirror_target = Some("eDP-1".to_string());
    let Err(source) = validate_requested_head_config(&desired) else {
        panic!("wlroots mirroring should be rejected before Wayland submission");
    };
    let validation = validation_rejection_from_submit_error(&source.message());
    assert_eq!(validation.failure, Some(ConfigFailureKind::Rejected));
    assert_eq!(
        validation.message.as_deref(),
        Some("wlroots rejected the configuration: wlroots mirroring is not implemented in this backend")
    );
}

#[test]
fn invalid_custom_mode_is_structured_apply_failure() {
    let Err(source) = custom_mode_values(Mode {
        width: u32::MAX,
        height: 1080,
        refresh: 60,
    }) else {
        panic!("oversized mode should be rejected before Wayland submission");
    };
    let result = apply_failure_from_submit_error(&source.message());
    assert_eq!(result.failure(), Some(ConfigFailureKind::Rejected));
    let message = result.message().expect("failure has context");
    assert!(
        message.starts_with(
            "wlroots failed to apply the configuration: wlroots mode width does not fit in i32"
        ),
        "{message}"
    );
}

#[test]
fn transform_from_wl_maps_known_rotations() {
    // The protocol numbers of `_90` and `flipped_270`.
    assert_eq!(transform_from_wl(1), Transform::Rot90);
    assert_eq!(transform_from_wl(7), Transform::Flipped270);
}

#[test]
fn transform_from_wl_defaults_unknown_values_to_normal() {
    assert_eq!(transform_from_wl(999), Transform::Normal);
}

#[test]
fn wl_transform_round_trips() {
    for t in [
        Transform::Normal,
        Transform::Rot90,
        Transform::Rot180,
        Transform::Rot270,
        Transform::Flipped,
        Transform::Flipped90,
        Transform::Flipped180,
        Transform::Flipped270,
    ] {
        assert_eq!(transform_from_wl(transform_to_wl(t)), t);
    }
}

fn projected_head(current_mode: Option<u32>, modes: Vec<ProjectedMode>) -> ProjectedHead {
    ProjectedHead {
        name: Some("DP-1".to_string()),
        description: Some("Headless output".to_string()),
        make: Some("Acme".to_string()),
        model: Some("Panel".to_string()),
        serial: Some("1234".to_string()),
        enabled: false,
        position: Position { x: 10, y: 20 },
        transform: Transform::Rot90,
        scale: 1.5f64.to_bits(),
        current_mode,
        modes,
    }
}

fn projected_mode(id: u32, width: u32, height: u32, refresh: u32, preferred: bool) -> ProjectedMode {
    ProjectedMode {
        id,
        width: Some(width),
        height: Some(height),
        refresh: Some(refresh),
        preferred,
    }
}

#[test]
fn disabled_head_stays_disabled_even_if_mode_lingers() {
    assert!(!head_is_enabled(false));
    assert!(head_is_enabled(true));
}

#[test]
fn virtual_descriptions_mark_outputs_virtual() {
    assert!(is_virtual_description("Headless output"));
    assert!(is_virtual_description("X11 bridge"));
    assert!(!is_virtual_description("Dell U2720Q"));
}

#[test]
fn update_identity_field_keeps_existing_value_for_unknown_placeholder() {
    let mut field = Some("Microstep".to_string());
    update_identity_field(&mut field, "Unknown");
    assert_eq!(field.as_deref(), Some("Microstep"));
    update_identity_field(&mut field, "  Dell ");
    assert_eq!(field.as_deref(), Some("Dell"));
}

#[test]
fn projected_head_skips_unnamed_outputs() {
    let mut head = projected_head(None, Vec::new());
    head.name = None;
    assert!(output_state_from_projection(&head).is_none());
}

#[test]
fn projected_head_exports_identity_state_and_transform() {
    let Some((name, output)) =
        output_state_from_projection(&projected_head(None, vec![projected_mode(1, 1920, 1080, 60_000, false)]))
    else {
        panic!("named head should project");
    };
    assert_eq!(name, "DP-1");
    assert_eq!(output.identity.connector.as_deref(), Some("DP-1"));
    assert_eq!(output.identity.make.as_deref(), Some("Acme"));
    assert_eq!(output.identity.model.as_deref(), Some("Panel"));
    assert_eq!(output.identity.serial.as_deref(), Some("1234"));
    assert_eq!(output.identity.description.as_deref(), Some("Headless output"));
    assert!(output.identity.is_virtual);
    assert!(!output.enabled);
    assert_eq!(output.position, Position { x: 10, y: 20 });
    assert_eq!(f64::from_bits(output.scale), 1.5);
    assert_eq!(output.transform, Transform::Rot90);
    assert_eq!(output.mirror_target, None);
}

#[test]
fn projected_head_prefers_current_then_preferred_then_first_mode() {
    let modes = vec![
        projected_mode(1, 1280, 720, 60_000, false),
        projected_mode(2, 1920, 1080, 60_000, true),
        projected_mode(3, 2560, 1440, 144_000, false),
    ];
    let current = output_state_from_projection(&projected_head(Some(3), modes.clone()))
        .expect("current projection")
        .1
        .mode;
    let preferred = output_state_from_projection(&projected_head(None, modes.clone()))
        .expect("preferred projection")
        .1
        .mode;
    let first = output_state_from_projection(&projected_head(
        None,
        vec![projected_mode(1, 1280, 720, 60_000, false), projected_mode(4, 1920, 1080, 60_000, false)],
    ))
    .expect("first projection")
    .1
    .mode;
    assert_eq!(current, Some(Mode { width: 2560, height: 1440, refresh: 144 }));
    assert_eq!(preferred, Some(Mode { width: 1920, height: 1080, refresh: 60 }));
    assert_eq!(first, Some(Mode { width: 1280, height: 720, refresh: 60 }));
}

#[test]
fn projected_head_sorts_and_deduplicates_available_modes() {
    let output = output_state_from_projection(&projected_head(
        None,
        vec![
            projected_mode(1, 2560, 1440, 144_000, false),
            projected_mode(2, 1920, 1080, 60_000, false),
            projected_mode(3, 1920, 1080, 60_000, false),
        ],
    ))
    .expect("mode projection")
    .1;
    assert_eq!(
        output.available_modes,
        vec![
            Mode { width: 1920, height: 1080, refresh: 60 },
            Mode { width: 2560, height: 1440, refresh: 144 },
        ]
    );
}

#[test]
fn head_config_uses_the_heads_own_mode_and_disables_heads_the_plan_leaves_out() {
    let mut desired = OutputState::new("DP-1");
    desired.enabled = true;
    desired.mode = Some(Mode::new(1920, 1080, 60));
    desired.position = Position::new(5, 6);
    desired.transform = Transform::Rot180;
    let p = plan(vec![("DP-1", desired)]);
    let head = projected_head(None, vec![projected_mode(9, 1920, 1080, 60_000, false)]);
    assert_eq!(
        head_config(&p, &head),
        Ok(HeadConfig::Enable {
            mode: Some(ModeRequest::Existing(9)),
            position: Position::new(5, 6),
            scale: 1.0f64.to_bits(),
            transform: 2,
        })
    );
    let mut other = projected_head(None, Vec::new());
    other.name = Some("HDMI-A-1".to_string());
    assert_eq!(head_config(&p, &other), Ok(HeadConfig::Disable));
}

#[test]
fn head_configs_report_the_first_output_that_cannot_be_configured() {
    let mut desired = OutputState::new("DP-1");
    desired.enabled = true;
    desired.mirror_target = Some("eDP-1".to_string());
    let p = plan(vec![("DP-1", desired)]);
    let Err(rejection) = plan_head_configs(&p, &vec![projected_head(None, Vec::new())]) else {
        panic!("a mirror cannot be configured");
    };
    assert_eq!(
        rejection.message(),
        "wlroots rejected output `DP-1`: wlroots mirroring is not implemented in this backend"
    );
}

// ---------------------------------------------------------------------------
// GNOME
// ---------------------------------------------------------------------------

#[test]
fn virtual_output_detection_uses_connector_or_description() {
    assert!(is_virtual_output("HEADLESS-1", None));
    assert!(is_virtual_output("DP-1", Some("Virtual monitor")));
    assert!(!is_virtual_output("DP-1", Some("Dell display")));
}

#[test]
fn transform_to_gnome_maps_rotation_values() {
    assert_eq!(transform_to_gnome(Transform::Normal), 0);
    assert_eq!(transform_to_gnome(Transform::Rot90), 1);
    assert_eq!(transform_to_gnome(Transform::Flipped270), 7);
}

fn monitor_mode(id: &str, width: u32, height: u32, refresh: u32, current: bool) -> MonitorModeInfo {
    MonitorModeInfo {
        id: id.to_string(),
        mode: Mode::new(width, height, refresh),
        is_current: if current { Some(true) } else { None },
        is_preferred: if current { Some(true) } else { None },
    }
}

fn sample_monitors() -> Vec<MonitorInfo> {
    vec![
        MonitorInfo {
            connector: "eDP-1".to_string(),
            vendor: "LEN".to_string(),
            product: "0x40ad".to_string(),
            serial: "0x00000000".to_string(),
            display_name: Some("Built-in display".to_string()),
            modes: vec![
                monitor_mode("1920x1080@60", 1920, 1080, 60, true),
                monitor_mode("1280x720@60", 1280, 720, 60, false),
            ],
        },
        MonitorInfo {
            connector: "DP-1".to_string(),
            vendor: "ACR".to_string(),
            product: "VG270U P".to_string(),
            serial: "serial".to_string(),
            display_name: Some("Acer 27".to_string()),
            modes: vec![
                monitor_mode("2560x1440@144", 2560, 1440, 144, true),
                monitor_mode("2560x1440@60", 2560, 1440, 60, false),
                monitor_mode("1920x1080@60", 1920, 1080, 60, false),
            ],
        },
    ]
}

fn sample_logical_monitors() -> Vec<LogicalMonitorConfig> {
    vec![
        LogicalMonitorConfig {
            position: Position::new(0, 0),
            scale: 1.0f64.to_bits(),
            transform: 0,
            primary: true,
            connectors: vec!["eDP-1".to_string()],
        },
        LogicalMonitorConfig {
            position: Position::new(1920, 0),
            scale: 1.0f64.to_bits(),
            transform: 0,
            primary: false,
            connectors: vec!["DP-1".to_string()],
        },
    ]
}

fn connected() -> Vec<String> {
    vec!["eDP-1".to_string(), "DP-1".to_string()]
}

fn found(name: &str, id: &str, width: u32, height: u32, refresh: u32) -> (String, ModeResolution) {
    (
        name.to_string(),
        ModeResolution::Found {
            id: id.to_string(),
            width,
            height,
            refresh,
        },
    )
}

fn one_scales() -> Vec<(String, u64)> {
    vec![("eDP-1".to_string(), 1.0f64.to_bits()), ("DP-1".to_string(), 1.0f64.to_bits())]
}

fn enabled_output(name: &str, mode: Mode) -> OutputState {
    let mut output = OutputState::new(name);
    output.enabled = true;
    output.mode = Some(mode);
    output
}

#[test]
fn export_topology_marks_enabled_outputs_from_logical_monitors() {
    let topology = export_current_state_topology(&sample_monitors(), &sample_logical_monitors());
    assert_eq!(state_of(&topology, "eDP-1").identity.make.as_deref(), Some("LEN"));
    assert_eq!(state_of(&topology, "eDP-1").position, Position::new(0, 0));
    assert!(state_of(&topology, "eDP-1").enabled);
    assert_eq!(state_of(&topology, "DP-1").mode, Some(Mode::new(2560, 1440, 144)));
    assert_eq!(state_of(&topology, "DP-1").mirror_target, None);
}

#[test]
fn export_topology_marks_secondary_monitors_as_mirrored() {
    let logical = vec![LogicalMonitorConfig {
        position: Position::new(0, 0),
        scale: 1.0f64.to_bits(),
        transform: 0,
        primary: true,
        connectors: vec!["eDP-1".to_string(), "DP-1".to_string()],
    }];
    let topology = export_current_state_topology(&sample_monitors(), &logical);
    assert_eq!(state_of(&topology, "eDP-1").mirror_target, None);
    assert_eq!(state_of(&topology, "DP-1").mirror_target.as_deref(), Some("eDP-1"));
}

#[test]
fn build_apply_config_preserves_current_primary_and_layout_mode() {
    let p = plan(vec![
        ("eDP-1", enabled_output("eDP-1", Mode::new(1920, 1080, 60))),
        ("DP-1", {
            let mut output = enabled_output("DP-1", Mode::new(2560, 1440, 60));
            output.position = Position::new(1920, 0);
            output
        }),
    ]);
    let res = vec![
        found("eDP-1", "1920x1080@60", 1920, 1080, 60),
        found("DP-1", "2560x1440@60", 2560, 1440, 60),
    ];
    let logical_monitors = build_apply_config(
        &p,
        &logical_by_connector(&sample_logical_monitors()),
        &connected(),
        &res,
        &one_scales(),
    )
    .expect("the plan applies");
    assert_eq!(logical_monitors.len(), 2);
    assert!(logical_monitors[0].primary);
    assert_eq!(logical_monitors[1].monitors[0].1, "2560x1440@60");
    assert_eq!(layout_mode_to_apply(Some(true), Some(2)), Some(2));
}

#[test]
fn build_apply_config_groups_mirrored_outputs_into_one_logical_monitor() {
    let p = plan(vec![
        ("eDP-1", enabled_output("eDP-1", Mode::new(1920, 1080, 60))),
        ("DP-1", {
            let mut output = enabled_output("DP-1", Mode::new(1920, 1080, 60));
            output.mirror_target = Some("eDP-1".to_string());
            output
        }),
    ]);
    let res = vec![
        found("eDP-1", "1920x1080@60", 1920, 1080, 60),
        found("DP-1", "1920x1080@60", 1920, 1080, 60),
    ];
    let logical_monitors = build_apply_config(
        &p,
        &logical_by_connector(&sample_logical_monitors()),
        &connected(),
        &res,
        &one_scales(),
    )
    .expect("the plan applies");
    assert_eq!(logical_monitors.len(), 1);
    assert_eq!(logical_monitors[0].monitors.len(), 2);
    assert_eq!(logical_monitors[0].monitors[0].0, "eDP-1");
    assert_eq!(logical_monitors[0].monitors[1].0, "DP-1");
}

#[test]
fn build_apply_config_rejects_mixed_mode_mirroring() {
    let p = plan(vec![
        ("DP-1", enabled_output("DP-1", Mode::new(2560, 1440, 60))),
        ("eDP-1", {
            let mut output = enabled_output("eDP-1", Mode::new(1920, 1080, 60));
            output.mirror_target = Some("DP-1".to_string());
            output
        }),
    ]);
    let res = vec![
        found("eDP-1", "1920x1080@60", 1920, 1080, 60),
        found("DP-1", "2560x1440@60", 2560, 1440, 60),
    ];
    let Err(err) = build_apply_config(
        &p,
        &logical_by_connector(&sample_logical_monitors()),
        &connected(),
        &res,
        &one_scales(),
    ) else {
        panic!("mixed-mode mirroring should be rejected");
    };
    assert!(err.contains("cannot mirror outputs with different modes"));
}

#[test]
fn build_apply_config_groups_same_origin_outputs_into_one_logical_monitor() {
    let p = plan(vec![
        ("eDP-1", enabled_output("eDP-1", Mode::new(1920, 1080, 60))),
        ("DP-1", enabled_output("DP-1", Mode::new(1920, 1080, 60))),
    ]);
    let res = vec![
        found("eDP-1", "1920x1080@60", 1920, 1080, 60),
        found("DP-1", "1920x1080@60", 1920, 1080, 60),
    ];
    let logical_monitors = build_apply_config(
        &p,
        &logical_by_connector(&sample_logical_monitors()),
        &connected(),
        &res,
        &one_scales(),
    )
    .expect("the plan applies");
    assert_eq!(logical_monitors.len(), 1);
    assert_eq!(logical_monitors[0].monitors.len(), 2);
    assert_eq!(logical_monitors[0].monitors[0].0, "DP-1");
    assert_eq!(logical_monitors[0].monitors[1].0, "eDP-1");
}

#[test]
fn build_apply_config_uses_target_mode_scales_for_logical_monitor() {
    let p = plan(vec![("eDP-1", {
        let mut output = enabled_output("eDP-1", Mode::new(1280, 720, 60));
        output.scale = 2.0f64.to_bits();
        output
    })]);
    let res = vec![found("eDP-1", "1280x720@60", 1280, 720, 60)];
    // The 1280x720 mode supports scale 1 only, which is what the root asks for.
    let scales = vec![("eDP-1".to_string(), 1.0f64.to_bits())];
    let logical_monitors = build_apply_config(
        &p,
        &logical_by_connector(&sample_logical_monitors()),
        &connected(),
        &res,
        &scales,
    )
    .expect("the plan applies");
    assert_eq!(logical_monitors.len(), 1);
    assert_eq!(f64::from_bits(logical_monitors[0].scale), 1.0);
    assert_eq!(logical_monitors[0].monitors[0].1, "1280x720@60");
}

#[test]
fn layout_properties_omits_layout_mode_when_mutter_does_not_allow_it() {
    assert_eq!(layout_mode_to_apply(None, Some(2)), None);
}

#[test]
fn apply_monitors_config_validation_error_is_structured_rejection() {
    let result = validation_rejection_from_apply_error("serial is stale", "serial is stale");
    assert_eq!(result.failure, Some(ConfigFailureKind::TopologyChanged));
    assert_eq!(
        result.message.as_deref(),
        Some("GNOME rejected the configuration: serial is stale")
    );
}

#[test]
fn apply_monitors_config_apply_error_is_structured_failure() {
    let result = apply_failure_from_apply_error("layout rejected", "layout rejected");
    assert_eq!(result.failure(), Some(ConfigFailureKind::Rejected));
    assert_eq!(
        result.message(),
        Some("GNOME failed to apply the configuration: layout rejected")
    );
}

// ---------------------------------------------------------------------------
// KScreen
// ---------------------------------------------------------------------------

fn kmode(id: &str, refresh: u32, width: u32, height: u32) -> KScreenMode {
    KScreenMode {
        id: id.to_string(),
        refresh,
        size: KScreenSize { width, height },
    }
}

/// Two connected outputs and a disconnected one, as `kscreen-doctor --json`
/// reports them (refresh rates rounded).
fn sample_config() -> KScreenConfig {
    KScreenConfig {
        outputs: vec![
            KScreenOutput {
                name: "eDP-1".to_string(),
                connected: true,
                enabled: true,
                id: 1,
                current_mode_id: Some("1".to_string()),
                modes: vec![kmode("1", 60, 1920, 1080), kmode("2", 50, 1920, 1080)],
                pos: Position::new(0, 0),
                scale: 1.0f64.to_bits(),
                replication_source: 0,
                rotation: 1,
                size: KScreenSize { width: 1920, height: 1080 },
            },
            KScreenOutput {
                name: "DVI-I-1".to_string(),
                connected: true,
                enabled: false,
                id: 2,
                current_mode_id: Some("3".to_string()),
                modes: vec![
                    kmode("3", 144, 2560, 1440),
                    kmode("4", 60, 2560, 1440),
                    kmode("5", 60, 1920, 1080),
                ],
                pos: Position::new(1920, 0),
                scale: 1.25f64.to_bits(),
                replication_source: 0,
                rotation: 8,
                size: KScreenSize { width: 2560, height: 1440 },
            },
            KScreenOutput {
                name: "HDMI-A-2".to_string(),
                connected: false,
                enabled: false,
                id: 0,
                current_mode_id: None,
                modes: Vec::new(),
                pos: Position::new(0, 0),
                scale: 1.0f64.to_bits(),
                replication_source: 0,
                rotation: 1,
                size: KScreenSize { width: 0, height: 0 },
            },
        ],
    }
}

fn kscreen_output_state(connector: &str, enabled: bool) -> OutputState {
    let mut state = OutputState::new(connector);
    state.identity = OutputIdentity::new(connector);
    state.enabled = enabled;
    state
}

fn facts(name: &str, mode_id: &str, scale_unchanged: bool) -> (String, PlannedOutputFacts) {
    (
        name.to_string(),
        PlannedOutputFacts {
            mode_id: Some(mode_id.to_string()),
            scale_unchanged,
            scale_text: "1".to_string(),
        },
    )
}

#[test]
fn mirror_target_name_resolves_replication_source() {
    let output = KScreenOutput {
        name: "HDMI-A-1".to_string(),
        connected: true,
        enabled: true,
        id: 2,
        current_mode_id: None,
        modes: Vec::new(),
        pos: Position::default(),
        scale: 1.0f64.to_bits(),
        replication_source: 1,
        rotation: ROTATION_NONE,
        size: KScreenSize { width: 0, height: 0 },
    };
    let others = vec![
        KScreenOutput {
            name: "DP-1".to_string(),
            id: 1,
            replication_source: 0,
            modes: Vec::new(),
            current_mode_id: None,
            ..output_copy(&output)
        },
        output_copy(&output),
    ];
    assert_eq!(mirror_target_name(&output, &others, false), Some("DP-1".to_string()));
}

fn output_copy(o: &KScreenOutput) -> KScreenOutput {
    KScreenOutput {
        name: o.name.clone(),
        connected: o.connected,
        enabled: o.enabled,
        id: o.id,
        current_mode_id: o.current_mode_id.clone(),
        modes: Vec::new(),
        pos: o.pos,
        scale: o.scale,
        replication_source: o.replication_source,
        rotation: o.rotation,
        size: o.size,
    }
}

#[test]
fn transform_from_kscreen_maps_known_rotations() {
    assert_eq!(transform_from_kscreen(ROTATION_NONE), Transform::Normal);
    assert_eq!(transform_from_kscreen(ROTATION_LEFT), Transform::Rot90);
    assert_eq!(transform_from_kscreen(ROTATION_FLIPPED_270), Transform::Flipped270);
}

#[test]
fn export_topology_uses_connected_outputs_only() {
    let topology = export_kscreen_topology(&sample_config());
    assert_eq!(topology.outputs.len(), 2);
    assert_eq!(
        state_of(&topology, "eDP-1").mode,
        Some(Mode { width: 1920, height: 1080, refresh: 60 })
    );
    assert_eq!(state_of(&topology, "DVI-I-1").transform, Transform::Rot270);
    assert!((f64::from_bits(state_of(&topology, "DVI-I-1").scale) - 1.25).abs() < 0.000_1);
    assert!(!has(&topology, "HDMI-A-2"));
}

#[test]
fn export_topology_sets_mirror_targets_from_replication_source() {
    let mut config = sample_config();
    let mirrored = config
        .outputs
        .iter_mut()
        .find(|output| output.name == "DVI-I-1")
        .expect("sample config should contain DVI-I-1");
    mirrored.enabled = true;
    mirrored.replication_source = 1;
    let topology = export_kscreen_topology(&config);
    assert_eq!(state_of(&topology, "eDP-1").mirror_target, None);
    assert_eq!(state_of(&topology, "DVI-I-1").mirror_target.as_deref(), Some("eDP-1"));
}

#[test]
fn build_apply_args_disables_missing_outputs_and_updates_enabled_ones() {
    let config = sample_config();
    let mut laptop = kscreen_output_state("eDP-1", true);
    laptop.mode = Some(Mode { width: 1920, height: 1080, refresh: 50 });
    laptop.position = Position { x: 0, y: 0 };
    let mut external = kscreen_output_state("DVI-I-1", true);
    external.mode = Some(Mode { width: 2560, height: 1440, refresh: 144 });
    external.position = Position { x: 1920, y: 0 };
    external.scale = 1.0f64.to_bits();
    external.transform = Transform::Normal;
    let p = plan(vec![("eDP-1", laptop), ("DVI-I-1", external)]);
    let f = vec![facts("eDP-1", "2", true), facts("DVI-I-1", "3", false)];
    let args = build_apply_args(&p, &config, &f).expect("arguments");
    assert_eq!(
        args,
        vec![
            "output.DVI-I-1.enable".to_string(),
            "output.DVI-I-1.scale.1".to_string(),
            "output.DVI-I-1.rotation.normal".to_string(),
            "output.eDP-1.mode.2".to_string(),
        ]
    );
}

#[test]
fn build_apply_args_can_disable_outputs_not_in_plan() {
    let config = sample_config();
    let mut laptop = kscreen_output_state("eDP-1", true);
    laptop.mode = Some(Mode { width: 1920, height: 1080, refresh: 60 });
    let p = plan(vec![("eDP-1", laptop)]);
    let f = vec![facts("eDP-1", "1", true)];
    let args = build_apply_args(&p, &config, &f).expect("arguments");
    assert!(args.is_empty());
}

#[test]
fn build_apply_args_or_rejection_reports_disconnected_output() {
    let config = KScreenConfig { outputs: vec![] };
    let mut desired = OutputState::new("DP-1");
    desired.enabled = true;
    let p = plan(vec![("DP-1", desired)]);
    let Err(result) = build_apply_args_or_rejection(&p, &config, &Vec::new()) else {
        panic!("disconnected output should be rejected");
    };
    assert!(result.message().is_some_and(|message| message.contains("not connected")));
}

#[test]
fn build_apply_args_or_rejection_returns_structured_rejection_for_disconnected_output() {
    let config = sample_config();
    let mut disconnected = kscreen_output_state("HDMI-A-2", true);
    disconnected.mode = Some(Mode { width: 1920, height: 1080, refresh: 60 });
    let p = plan(vec![("HDMI-A-2", disconnected)]);
    let Err(result) = build_apply_args_or_rejection(&p, &config, &Vec::new()) else {
        panic!("disconnected output should be a structured apply rejection");
    };
    assert_eq!(result.failure(), Some(ConfigFailureKind::Rejected));
    assert_eq!(
        result.message(),
        Some("KScreen rejected the configuration: output `HDMI-A-2` is not connected on this KScreen session")
    );
}

#[test]
fn build_apply_args_uses_native_kscreen_mirror_commands() {
    let config = sample_config();
    let mut laptop = kscreen_output_state("eDP-1", true);
    laptop.mode = Some(Mode { width: 1920, height: 1080, refresh: 60 });
    laptop.position = Position { x: 0, y: 0 };
    let mut external = kscreen_output_state("DVI-I-1", true);
    external.mode = Some(Mode { width: 1920, height: 1080, refresh: 60 });
    external.scale = 1.0f64.to_bits();
    external.transform = Transform::Normal;
    external.mirror_target = Some("eDP-1".to_string());
    let p = plan(vec![("eDP-1", laptop), ("DVI-I-1", external)]);
    let f = vec![facts("eDP-1", "1", true), facts("DVI-I-1", "5", false)];
    let args = build_apply_args(&p, &config, &f).expect("arguments");
    assert_eq!(
        args,
        vec![
            "output.DVI-I-1.enable".to_string(),
            "output.DVI-I-1.mode.5".to_string(),
            "output.DVI-I-1.scale.1".to_string(),
            "output.DVI-I-1.rotation.normal".to_string(),
            "output.DVI-I-1.mirror.1".to_string(),
        ]
    );
}

#[test]
fn build_apply_args_clears_mirror_before_setting_position() {
    let mut config = sample_config();
    let mirrored = config
        .outputs
        .iter_mut()
        .find(|output| output.name == "DVI-I-1")
        .expect("sample config should contain DVI-I-1");
    mirrored.enabled = true;
    mirrored.replication_source = 1;
    let mut laptop = kscreen_output_state("eDP-1", true);
    laptop.mode = Some(Mode { width: 1920, height: 1080, refresh: 60 });
    laptop.position = Position { x: 0, y: 0 };
    let mut external = kscreen_output_state("DVI-I-1", true);
    external.mode = Some(Mode { width: 1920, height: 1080, refresh: 60 });
    external.position = Position { x: 1920, y: 0 };
    external.scale = 1.0f64.to_bits();
    external.transform = Transform::Normal;
    let p = plan(vec![("eDP-1", laptop), ("DVI-I-1", external)]);
    let f = vec![facts("eDP-1", "1", true), facts("DVI-I-1", "5", false)];
    let args = build_apply_args(&p, &config, &f).expect("arguments");
    assert_eq!(
        args,
        vec![
            "output.DVI-I-1.mode.5".to_string(),
            "output.DVI-I-1.scale.1".to_string(),
            "output.DVI-I-1.rotation.normal".to_string(),
            "output.DVI-I-1.mirror.none".to_string(),
        ]
    );
}
