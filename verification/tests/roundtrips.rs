use waytorandr::backends::gnome::{transform_from_gnome, transform_to_gnome};
use waytorandr::backends::kscreen::{
    transform_from_kscreen, ROTATION_FLIPPED, ROTATION_FLIPPED_180, ROTATION_FLIPPED_270, ROTATION_FLIPPED_90,
    ROTATION_INVERTED, ROTATION_LEFT, ROTATION_NONE, ROTATION_RIGHT,
};
use waytorandr::backends::wlroots::{transform_from_wl, transform_to_wl};
use waytorandr::model::Transform;

const ALL: [Transform; 8] = [
    Transform::Normal,
    Transform::Rot90,
    Transform::Rot180,
    Transform::Rot270,
    Transform::Flipped,
    Transform::Flipped90,
    Transform::Flipped180,
    Transform::Flipped270,
];

#[test]
fn gnome_transform_roundtrips() {
    for t in ALL {
        assert_eq!(transform_from_gnome(transform_to_gnome(t)), t);
    }
}

#[test]
fn wayland_transform_roundtrips() {
    for t in ALL {
        assert_eq!(transform_from_wl(transform_to_wl(t)), t);
    }
}

#[test]
fn kscreen_rotation_flags_roundtrip() {
    let flags = [
        ROTATION_NONE,
        ROTATION_LEFT,
        ROTATION_INVERTED,
        ROTATION_RIGHT,
        ROTATION_FLIPPED,
        ROTATION_FLIPPED_90,
        ROTATION_FLIPPED_180,
        ROTATION_FLIPPED_270,
    ];
    for (flag, t) in flags.into_iter().zip(ALL) {
        assert_eq!(transform_from_kscreen(flag), t);
    }
}

#[test]
fn unknown_rotation_values_read_as_normal() {
    assert_eq!(transform_from_kscreen(3), Transform::Normal);
    assert_eq!(transform_from_gnome(99), Transform::Normal);
    assert_eq!(transform_from_wl(999), Transform::Normal);
}
