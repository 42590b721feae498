//! Backend kinds and what each backend can do.
use vstd::prelude::*;

use crate::model::VirtualPreset;
use crate::text::{chars_lower_eq, chars_of, lower_eq, push_str, trim, trim_bounds};

verus! {

#[derive(Debug, Clone, Copy, PartialEq, Eq, Structural)]
pub enum BackendKind {
    Gnome,
    KScreen,
    Wlroots,
    Test,
    Unknown,
}

impl Default for BackendKind {
    fn default() -> (r: Self)
        ensures
            r == BackendKind::Unknown,
    {
        BackendKind::Unknown
    }
}

pub open spec fn backend_label(k: BackendKind) -> Seq<char> {
    match k {
        BackendKind::Gnome => "gnome"@,
        BackendKind::KScreen => "kscreen"@,
        BackendKind::Wlroots => "wlroots"@,
        BackendKind::Test => "test"@,
        BackendKind::Unknown => "unknown"@,
    }
}

/// The backend whose label is `name`, trimmed and compared without ASCII case.
pub open spec fn backend_from_label(name: Seq<char>) -> Option<BackendKind> {
    let t = trim(name);
    if lower_eq(t, "gnome"@) {
        Some(BackendKind::Gnome)
    } else if lower_eq(t, "kscreen"@) {
        Some(BackendKind::KScreen)
    } else if lower_eq(t, "wlroots"@) {
        Some(BackendKind::Wlroots)
    } else if lower_eq(t, "test"@) {
        Some(BackendKind::Test)
    } else if lower_eq(t, "unknown"@) {
        Some(BackendKind::Unknown)
    } else {
        None
    }
}

proof fn lemma_label_is_trimmed(s: Seq<char>)
    requires
        s.len() > 0,
        !crate::text::is_whitespace_char(s[0]),
        !crate::text::is_whitespace_char(s.last()),
    ensures
        trim(s) == s,
{
    assert(crate::text::trim_start(s) == s);
}

/// A backend's public label reads back as that backend.
pub proof fn lemma_backend_label_roundtrip(k: BackendKind)
    ensures
        backend_from_label(backend_label(k)) == Some(k),
{
    reveal_strlit("gnome");
    reveal_strlit("kscreen");
    reveal_strlit("wlroots");
    reveal_strlit("test");
    reveal_strlit("unknown");
    let l = backend_label(k);
    lemma_label_is_trimmed(l);
    assert(trim(l) == l);
    match k {
        BackendKind::Gnome => {
            assert(lower_eq(l, "gnome"@));
        },
        BackendKind::KScreen => {
            assert(!lower_eq(l, "gnome"@));
            assert(lower_eq(l, "kscreen"@));
        },
        BackendKind::Wlroots => {
            assert(!lower_eq(l, "gnome"@));
            assert(!lower_eq(l, "kscreen"@)) by {
                assert(crate::text::lower_code(l[0]) != ("kscreen"@[0] as int));
            }
            assert(lower_eq(l, "wlroots"@));
        },
        BackendKind::Test => {
            assert(!lower_eq(l, "gnome"@));
            assert(!lower_eq(l, "kscreen"@));
            assert(!lower_eq(l, "wlroots"@));
            assert(lower_eq(l, "test"@));
        },
        BackendKind::Unknown => {
            assert(!lower_eq(l, "gnome"@));
            assert(!lower_eq(l, "kscreen"@)) by {
                assert(crate::text::lower_code(l[0]) != ("kscreen"@[0] as int));
            }
            assert(!lower_eq(l, "wlroots"@)) by {
                assert(crate::text::lower_code(l[0]) != ("wlroots"@[0] as int));
            }
            assert(!lower_eq(l, "test"@));
            assert(lower_eq(l, "unknown"@));
        },
    }
}

impl BackendKind {
    /// The public label of the backend.
    pub fn as_str(self) -> (r: &'static str)
        ensures
            r@ == backend_label(self),
    {
        match self {
            BackendKind::Gnome => "gnome",
            BackendKind::KScreen => "kscreen",
            BackendKind::Wlroots => "wlroots",
            BackendKind::Test => "test",
            BackendKind::Unknown => "unknown",
        }
    }

    /// The public label of the backend, as a `String`.
    pub fn to_string(self) -> (r: String)
        ensures
            r@ == backend_label(self),
    {
        self.as_str().to_owned()
    }

    /// Backends that mirror outputs natively.
    pub fn is_native_mirror_backend(self) -> (r: bool)
        ensures
            r == (self == BackendKind::Gnome || self == BackendKind::KScreen),
    {
        match self {
            BackendKind::Gnome | BackendKind::KScreen => true,
            _ => false,
        }
    }

    /// Parses a backend label.
    pub fn from_name(name: &str) -> (r: Option<BackendKind>)
        ensures
            r == backend_from_label(name@),
    {
        let chars = chars_of(name);
        let (a, b) = trim_bounds(&chars);
        let t = crate::model::sub_chars(&chars, a, b);
        if chars_lower_eq(&t, &chars_of("gnome")) {
            Some(BackendKind::Gnome)
        } else if chars_lower_eq(&t, &chars_of("kscreen")) {
            Some(BackendKind::KScreen)
        } else if chars_lower_eq(&t, &chars_of("wlroots")) {
            Some(BackendKind::Wlroots)
        } else if chars_lower_eq(&t, &chars_of("test")) {
            Some(BackendKind::Test)
        } else if chars_lower_eq(&t, &chars_of("unknown")) {
            Some(BackendKind::Unknown)
        } else {
            None
        }
    }
}

#[derive(Debug, Clone, Copy, PartialEq, Eq, Structural)]
pub struct Capabilities {
    pub can_validate: bool,
    pub supports_mirror: bool,
    pub supports_largest_mirror: bool,
    pub backend: BackendKind,
}

impl Default for Capabilities {
    fn default() -> (r: Self)
        ensures
            !r.can_validate && !r.supports_mirror && !r.supports_largest_mirror && r.backend
                == BackendKind::Unknown,
    {
        Capabilities {
            can_validate: false,
            supports_mirror: false,
            supports_largest_mirror: false,
            backend: BackendKind::Unknown,
        }
    }
}

/// The guidance given when native mirroring is requested from a backend that
/// lacks it.
pub open spec fn mirror_unavailable_message(backend: BackendKind) -> Seq<char> {
    "native display mirroring is not available through the `"@ + backend_label(backend)
        + "` backend; use 'wl-mirror' for now on this compositor. See https://github.com/swaywm/wlr-protocols/issues/101"@
}

impl Capabilities {
    /// A backend that can do nothing beyond applying layouts.
    pub fn new(backend: BackendKind) -> (r: Self)
        ensures
            !r.can_validate && !r.supports_mirror && !r.supports_largest_mirror && r.backend
                == backend,
    {
        Capabilities {
            can_validate: false,
            supports_mirror: false,
            supports_largest_mirror: false,
            backend,
        }
    }

    pub fn backend_name(&self) -> (r: &'static str)
        ensures
            r@ == backend_label(self.backend),
    {
        self.backend.as_str()
    }

    /// Why `preset` cannot be applied through this backend, if it cannot.
    pub fn virtual_preset_unavailable_message(&self, preset: VirtualPreset) -> (r: Option<String>)
        ensures
            match r {
                Some(m) => preset == VirtualPreset::Mirror && !self.supports_mirror && m@
                    == mirror_unavailable_message(self.backend),
                None => !(preset == VirtualPreset::Mirror && !self.supports_mirror),
            },
    {
        match preset {
            VirtualPreset::Mirror => {
                if self.supports_mirror {
                    None
                } else {
                    let mut message = "native display mirroring is not available through the `".to_owned();
                    push_str(&mut message, self.backend.as_str());
                    push_str(
                        &mut message,
                        "` backend; use 'wl-mirror' for now on this compositor. See https://github.com/swaywm/wlr-protocols/issues/101",
                    );
                    Some(message)
                }
            },
            _ => None,
        }
    }
}

} // verus!
