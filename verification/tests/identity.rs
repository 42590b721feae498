use waytorandr::matcher::Matcher;
use waytorandr::model::backend::{BackendKind, Capabilities};
use waytorandr::model::identity::{identities_match, normalized_identity_value, OutputIdentity};
use waytorandr::model::VirtualPreset;

#[test]
fn test_serial_match_does_not_require_same_connector() {
    let query = {
        let mut identity = OutputIdentity::new("DP-4");
        identity.make = Some("Microstep".to_string());
        identity.model = Some("MSI MP273A".to_string());
        identity.serial = Some("PB4H603B02982".to_string());
        identity.description = Some("Microstep - MSI MP273A - DP-4".to_string());
        identity
    };
    let candidate = {
        let mut identity = OutputIdentity::new("DP-1");
        identity.make = Some("Microstep".to_string());
        identity.model = Some("MSI MP273A".to_string());
        identity.serial = Some("PB4H603B02982".to_string());
        identity.description = Some("Microstep - MSI MP273A - DP-1".to_string());
        identity
    };

    assert!(Matcher::identities_match(&query, &candidate));
}

#[test]
fn unknown_identity_fields_fall_back_to_connector_match() {
    let query = {
        let mut identity = OutputIdentity::new("DP-4");
        identity.make = Some("Unknown".to_string());
        identity.model = Some("Unknown".to_string());
        identity.description = Some("Unknown - Unknown - DP-4".to_string());
        identity
    };
    let candidate = {
        let mut identity = OutputIdentity::new("DP-4");
        identity.make = Some("Microstep".to_string());
        identity.model = Some("MSI MP273A".to_string());
        identity.description = Some("Microstep - MSI MP273A - DP-4".to_string());
        identity
    };

    assert!(Matcher::identities_match(&query, &candidate));
}

#[test]
fn identity_matching_prefers_edid_when_present() {
    let mut query = OutputIdentity::new("DP-1");
    query.edid_hash = Some("abc".to_string());
    let mut candidate = OutputIdentity::new("DP-1");
    candidate.edid_hash = Some("abc".to_string());

    assert!(identities_match(&query, &candidate));

    candidate.edid_hash = Some("def".to_string());
    assert!(!identities_match(&query, &candidate));
}

#[test]
fn fallback_ignores_unknown_placeholder_values() {
    let mut primary = OutputIdentity::new("Unknown");
    primary.make = Some("Unknown".to_string());
    let mut fallback = OutputIdentity::new("DP-1");
    fallback.make = Some("Dell".to_string());

    let merged = primary.with_fallback(&fallback);

    assert_eq!(merged.connector.as_deref(), Some("DP-1"));
    assert_eq!(merged.make.as_deref(), Some("Dell"));
}

#[test]
fn match_score_ignores_unknown_placeholder_values() {
    let identity = OutputIdentity {
        make: Some("Unknown".to_string()),
        model: Some("n/a".to_string()),
        serial: Some("none".to_string()),
        connector: Some("unknown".to_string()),
        ..OutputIdentity::default()
    };

    assert_eq!(identity.match_score(), 0);
}

#[test]
fn primary_key_ignores_unknown_identity_fields() {
    let mut identity = OutputIdentity::new("DP-4");
    identity.make = Some("Unknown".to_string());
    identity.model = Some("Unknown".to_string());
    identity.description = Some("Unknown - Unknown - DP-4".to_string());

    assert_eq!(identity.primary_key(), "conn:DP-4");
}

#[test]
fn virtual_preset_policy_is_centralized() {
    let capabilities = Capabilities {
        can_validate: true,
        supports_mirror: false,
        supports_largest_mirror: false,
        backend: BackendKind::Wlroots,
    };

    assert!(capabilities
        .virtual_preset_unavailable_message(VirtualPreset::Mirror)
        .is_some());
    assert!(capabilities
        .virtual_preset_unavailable_message(VirtualPreset::Largest)
        .is_none());
    assert!(capabilities
        .virtual_preset_unavailable_message(VirtualPreset::Common)
        .is_none());
    assert!(capabilities
        .virtual_preset_unavailable_message(VirtualPreset::Horizontal)
        .is_none());
}

#[test]
fn backend_kind_parses_and_formats_public_labels() {
    assert_eq!(BackendKind::from_name(" kscreen "), Some(BackendKind::KScreen));
    assert_eq!(BackendKind::from_name("wlroots"), Some(BackendKind::Wlroots));
    assert_eq!(BackendKind::from_name("missing"), None);
    assert_eq!(BackendKind::Gnome.to_string(), "gnome");
}

#[test]
fn capabilities_report_native_mirror_policy() {
    let capabilities = Capabilities::new(BackendKind::Wlroots);

    assert_eq!(capabilities.backend_name(), "wlroots");
    assert!(capabilities
        .virtual_preset_unavailable_message(VirtualPreset::Mirror)
        .is_some());
}

#[test]
fn normalized_identity_value_trims_and_drops_placeholders() {
    assert_eq!(normalized_identity_value(Some("  Dell  ")), Some("Dell".to_string()));
    assert_eq!(normalized_identity_value(Some("N/A")), None);
    assert_eq!(normalized_identity_value(Some("   ")), None);
    assert_eq!(normalized_identity_value(None), None);
}
