use waytorandr::model::backend::BackendKind;
use waytorandr::model::identity::OutputIdentity;
use waytorandr::model::{Mode, OutputState, Position, Topology};
use waytorandr::normalize::{canonicalize_profile, normalize_topology_with_known_outputs};
use waytorandr::profile::{Hooks, OutputConfig, OutputMatcher, Profile};
use waytorandr::store::{
    filter_profiles_for_setup, get_for_setup, stored_profiles_for_setup_with_known_outputs,
    stored_profiles_with_known_outputs, ProfilesFile,
};

fn layout_entry(connector: &str, state: OutputState) -> (String, OutputConfig) {
    (connector.to_string(), OutputConfig { state, preset: None })
}

fn layout_of<'a>(profile: &'a Profile, connector: &str) -> &'a OutputConfig {
    &profile.layout.iter().find(|(n, _)| n == connector).expect("layout entry").1
}

fn known_dell() -> Vec<(String, OutputIdentity)> {
    vec![(
        "DP-1".to_string(),
        OutputIdentity {
            make: Some("Dell".to_string()),
            model: Some("U2720Q".to_string()),
            serial: Some("abc123".to_string()),
            connector: Some("DP-1".to_string()),
            description: Some("Display".to_string()),
            ..OutputIdentity::default()
        },
    )]
}

fn query_profile(name: &str, connector: &str) -> Profile {
    Profile {
        name: name.to_string(),
        priority: 0,
        match_rules: vec![OutputMatcher::new(OutputIdentity::new(connector), true, None)],
        layout: vec![layout_entry(connector, OutputState::new(connector))],
        hooks: Hooks::default(),
    }
}

#[test]
fn canonicalize_profile_infers_and_normalizes_known_outputs() {
    let mut output = OutputState::new("DP-1");
    output.enabled = true;
    output.position = Position::new(10, 20);

    let profile = Profile {
        name: "desk".to_string(),
        priority: 0,
        match_rules: Vec::new(),
        layout: vec![layout_entry("DP-1", output)],
        hooks: Hooks::default(),
    };

    let normalized = canonicalize_profile(&profile, &known_dell());

    assert_eq!(normalized.match_rules.len(), 1);
    assert_eq!(normalized.match_rules[0].identity.make.as_deref(), Some("Dell"));
    assert_eq!(normalized.match_rules[0].identity.model.as_deref(), Some("U2720Q"));
    assert_eq!(
        layout_of(&normalized, "DP-1").state.identity.serial.as_deref(),
        Some("abc123")
    );
}

#[test]
fn normalize_topology_uses_known_output_identity() {
    let mut topology = Topology::new();
    let mut output = OutputState::new("DP-1");
    output.enabled = true;
    topology.insert("DP-1".to_string(), output);

    let normalized = normalize_topology_with_known_outputs(&topology, &known_dell());

    let dp1 = normalized.get("DP-1").expect("DP-1 stays");
    assert_eq!(dp1.identity.make.as_deref(), Some("Dell"));
    assert_eq!(dp1.identity.model.as_deref(), Some("U2720Q"));
    assert_eq!(dp1.identity.serial.as_deref(), Some("abc123"));
}

#[test]
fn normalize_topology_keeps_outputs_without_cached_identity() {
    let mut topology = Topology::new();
    topology.insert("HDMI-A-1".to_string(), OutputState::new("HDMI-A-1"));

    let normalized = normalize_topology_with_known_outputs(&topology, &known_dell());

    assert_eq!(normalized, topology);
}

#[test]
fn infers_match_rules_from_layout_when_missing() {
    let mut state = OutputState::new("DP-1");
    state.enabled = true;
    state.position = Position::new(10, 20);

    let profile = Profile {
        name: "desk".to_string(),
        priority: 0,
        match_rules: Vec::new(),
        layout: vec![layout_entry("DP-1", state)],
        hooks: Hooks::default(),
    };

    let inferred = profile.with_inferred_match_rules();

    assert_eq!(inferred.match_rules.len(), 1);
    assert_eq!(inferred.match_rules[0].identity.connector.as_deref(), Some("DP-1"));
    assert!(inferred.match_rules[0].required);
    assert_eq!(inferred.match_rules[0].position_hint, Some(Position::new(10, 20)));
}

#[test]
fn explicit_match_rules_are_kept_as_they_are() {
    let profile = query_profile("desk", "DP-1");
    let inferred = profile.with_inferred_match_rules();
    assert_eq!(inferred, profile);
}

#[test]
fn ignores_virtual_and_ignored_outputs_in_fingerprints_and_inference() {
    let mut regular = OutputState::new("DP-1");
    regular.enabled = true;

    let mut virtual_output = OutputState::new("VIRT-1");
    virtual_output.identity.is_virtual = true;

    let mut ignored_output = OutputState::new("IGN-1");
    ignored_output.identity.is_ignored = true;

    let profile = Profile {
        name: "desk".to_string(),
        priority: 0,
        match_rules: Vec::new(),
        layout: vec![
            layout_entry("DP-1", regular),
            layout_entry("VIRT-1", virtual_output),
            layout_entry("IGN-1", ignored_output),
        ],
        hooks: Hooks::default(),
    };

    assert_eq!(profile.setup_fingerprint(), "conn:DP-1");

    let inferred = profile.with_inferred_match_rules();
    assert_eq!(inferred.match_rules.len(), 1);
    assert_eq!(inferred.match_rules[0].identity.connector.as_deref(), Some("DP-1"));
}

#[test]
fn ignores_virtual_and_ignored_match_rules_in_setup_fingerprint() {
    let profile = Profile {
        name: "desk".to_string(),
        priority: 0,
        match_rules: vec![
            OutputMatcher::new(OutputIdentity::new("DP-1"), true, None),
            OutputMatcher::new(
                OutputIdentity {
                    connector: Some("VIRT-1".to_string()),
                    is_virtual: true,
                    ..OutputIdentity::default()
                },
                true,
                None,
            ),
            OutputMatcher::new(
                OutputIdentity {
                    connector: Some("IGN-1".to_string()),
                    is_ignored: true,
                    ..OutputIdentity::default()
                },
                true,
                None,
            ),
        ],
        layout: Vec::new(),
        hooks: Hooks::default(),
    };

    assert_eq!(profile.setup_fingerprint(), "conn:DP-1");
}

#[test]
fn same_layout_as_ignores_mode_inventory_and_backend_metadata() {
    let mut left = OutputState::new("DP-1");
    left.enabled = true;
    left.mode = Some(Mode::new(1920, 1080, 60));
    left.available_modes = vec![Mode::new(1920, 1080, 60)];
    left.backend_data = Some("{\"side\":\"left\"}".to_string());

    let mut right = left.clone();
    right.available_modes = vec![Mode::new(1280, 720, 60), Mode::new(1920, 1080, 60)];
    right.backend_data = Some("{\"side\":\"right\"}".to_string());

    assert!(left.same_layout_as(&right));
}

#[test]
fn same_layout_as_sees_a_moved_output() {
    let mut left = OutputState::new("DP-1");
    left.enabled = true;
    let mut right = left.clone();
    right.position = Position::new(1920, 0);

    assert!(!left.same_layout_as(&right));
}

#[test]
fn topology_setup_fingerprint_ignores_layout_and_virtual_outputs() {
    let mut desk = Topology::new();
    let mut dp1 = OutputState::new("DP-1");
    dp1.enabled = true;
    desk.insert("DP-1".to_string(), dp1.clone());

    let mut moved = Topology::new();
    let mut dp1_moved = dp1.clone();
    dp1_moved.position = Position::new(100, 200);
    dp1_moved.enabled = false;
    moved.insert("DP-1".to_string(), dp1_moved);
    let mut virt = OutputState::new("VIRT-1");
    virt.identity.is_virtual = true;
    moved.insert("VIRT-1".to_string(), virt);

    assert_eq!(desk.setup_fingerprint(), moved.setup_fingerprint());
}

#[test]
fn fallback_fills_only_missing_fields_and_is_idempotent() {
    let mut identity = OutputIdentity::new("DP-1");
    identity.make = Some("Acme".to_string());
    let cached = &known_dell()[0].1;

    let filled = identity.with_fallback(cached);
    assert_eq!(filled.make.as_deref(), Some("Acme"));
    assert_eq!(filled.model.as_deref(), Some("U2720Q"));
    assert_eq!(filled.serial.as_deref(), Some("abc123"));
    assert_eq!(filled.with_fallback(cached), filled);
}

#[test]
fn backend_labels_roundtrip() {
    for kind in [BackendKind::Gnome, BackendKind::KScreen, BackendKind::Wlroots] {
        let label = kind.as_str().to_string();
        assert_eq!(BackendKind::from_name(&label), Some(kind));
    }
}

#[test]
fn filters_profiles_for_matching_setup_fingerprint() {
    let matching = query_profile("desk", "DP-1");
    let other = query_profile("sofa", "HDMI-A-1");
    let setup_fingerprint = matching.setup_fingerprint();

    let stored = stored_profiles_for_setup_with_known_outputs(
        vec![matching, other],
        &setup_fingerprint,
        &Vec::new(),
    );

    assert_eq!(stored.len(), 1);
    assert_eq!(stored[0].profile.name, "desk");
    assert_eq!(stored[0].setup_fingerprint, setup_fingerprint);

    let again = filter_profiles_for_setup(stored.clone(), &setup_fingerprint);
    assert_eq!(again.len(), 1);
}

#[test]
fn remove_for_setup_clears_deleted_profiles_setup_default_only() {
    let mut file = ProfilesFile::default();
    let desk = query_profile("desk", "DP-1");
    let travel = query_profile("desk", "eDP-1");
    let desk_setup = desk.setup_fingerprint();
    let travel_setup = travel.setup_fingerprint();
    let known = Vec::new();

    file.save_profile(&desk, &known);
    file.save_profile(&travel, &known);
    file.settings.set_setup_default_profile(&desk_setup, "desk");
    file.settings.set_setup_default_profile(&travel_setup, "desk");
    assert!(file.remove_for_setup("desk", &desk_setup, &known));

    assert_eq!(file.settings.setup_default_profile(&desk_setup), None);
    assert_eq!(file.settings.setup_default_profile(&travel_setup), Some("desk"));
    assert_eq!(file.profiles.len(), 1);
    assert!(!file.remove_for_setup("desk", &desk_setup, &known));
}

#[test]
fn remove_unique_clears_all_defaults_for_deleted_profile() {
    let mut file = ProfilesFile::default();
    let desk = query_profile("desk", "DP-1");
    let desk_setup = desk.setup_fingerprint();
    let known = Vec::new();

    file.save_profile(&desk, &known);
    file.settings.set_setup_default_profile(&desk_setup, "desk");
    assert_eq!(file.remove_unique("desk"), Ok(true));

    assert_eq!(file.settings.setup_default_profile(&desk_setup), None);
    assert!(file.profiles.is_empty());
}

#[test]
fn saving_a_profile_twice_keeps_one_copy() {
    let mut file = ProfilesFile::default();
    let desk = query_profile("desk", "DP-1");
    let known = Vec::new();

    file.save_profile(&desk, &known);
    let mut once = ProfilesFile::default();
    once.save_profile(&desk, &known);
    file.save_profile(&desk, &known);

    assert_eq!(file, once);
    assert_eq!(file.profiles.len(), 1);
    assert_eq!(file.profiles[0].name, "desk");
}

#[test]
fn saved_profile_is_found_for_its_setup() {
    let mut file = ProfilesFile::default();
    let desk = query_profile("desk", "DP-1");
    let sofa = query_profile("sofa", "HDMI-A-1");
    let known = known_dell();

    file.save_profile(&sofa, &known);
    file.save_profile(&desk, &known);
    let canonical = canonicalize_profile(&desk, &known);
    let setup = canonical.setup_fingerprint();

    let stored = stored_profiles_with_known_outputs(file.profiles.clone(), &known);
    let found = get_for_setup(&stored, "desk", &setup).expect("the saved profile is found");
    assert_eq!(found.profile, canonical);
    assert_eq!(found.setup_fingerprint, setup);
}
