//! Which backend to connect: an explicit override, else an order that
//! depends on the desktop session.
use vstd::prelude::*;

use crate::error::BackendConnectionError;
use crate::model::BackendKind;
use crate::text::{
    chars_lower_contains, chars_lower_eq, chars_of, lower_contains, lower_eq, string_from_chars,
    trim, trim_bounds,
};

verus! {

/// The desktop session variables (`XDG_CURRENT_DESKTOP`,
/// `XDG_SESSION_DESKTOP`, `DESKTOP_SESSION`).
#[derive(Debug, PartialEq)]
pub struct SessionEnvironment {
    pub current_desktop: Option<String>,
    pub session_desktop: Option<String>,
    pub desktop_session: Option<String>,
}

impl Default for SessionEnvironment {
    fn default() -> (r: Self)
        ensures
            r.current_desktop is None && r.session_desktop is None && r.desktop_session is None,
    {
        SessionEnvironment { current_desktop: None, session_desktop: None, desktop_session: None }
    }
}

pub open spec fn mentions(v: Option<String>, word: Seq<char>) -> bool {
    match v {
        Some(s) => lower_contains(s@, word),
        None => false,
    }
}

fn opt_mentions(v: &Option<String>, word: &str) -> (r: bool)
    ensures
        r == mentions(*v, word@),
{
    match v {
        Some(s) => chars_lower_contains(&chars_of(s.as_str()), &chars_of(word)),
        None => false,
    }
}

impl SessionEnvironment {
    /// Some session variable mentions `word`, compared without ASCII case.
    pub open spec fn mentions(self, word: Seq<char>) -> bool {
        mentions(self.current_desktop, word) || mentions(self.session_desktop, word) || mentions(
            self.desktop_session,
            word,
        )
    }

    pub open spec fn is_gnome_spec(self) -> bool {
        self.mentions("gnome"@)
    }

    pub open spec fn is_kde_spec(self) -> bool {
        self.mentions("kde"@) || self.mentions("plasma"@)
    }

    fn any_mentions(&self, word: &str) -> (r: bool)
        ensures
            r == self.mentions(word@),
    {
        opt_mentions(&self.current_desktop, word) || opt_mentions(&self.session_desktop, word)
            || opt_mentions(&self.desktop_session, word)
    }

    pub fn is_gnome_session(&self) -> (r: bool)
        ensures
            r == self.is_gnome_spec(),
    {
        self.any_mentions("gnome")
    }

    pub fn is_kde_session(&self) -> (r: bool)
        ensures
            r == self.is_kde_spec(),
    {
        self.any_mentions("kde") || self.any_mentions("plasma")
    }
}

/// The backends to try, in order: the session's own backend first, then
/// wlroots, then the other; without a known session, wlroots, then
/// KScreen, then GNOME.
pub open spec fn backend_order(env: SessionEnvironment) -> Seq<BackendKind> {
    if env.is_kde_spec() {
        seq![BackendKind::KScreen, BackendKind::Wlroots, BackendKind::Gnome]
    } else if env.is_gnome_spec() {
        seq![BackendKind::Gnome, BackendKind::Wlroots, BackendKind::KScreen]
    } else {
        seq![BackendKind::Wlroots, BackendKind::KScreen, BackendKind::Gnome]
    }
}

/// A production backend and the ranks it takes in GNOME, KDE and other
/// sessions (lower first).
struct BackendDescriptor {
    kind: BackendKind,
    gnome_priority: u8,
    kde_priority: u8,
    fallback_priority: u8,
}

fn descriptors() -> (r: Vec<BackendDescriptor>)
    ensures
        r@.len() == 3,
        r@[0].kind == BackendKind::Gnome && r@[0].gnome_priority == 0 && r@[0].kde_priority == 2
            && r@[0].fallback_priority == 2,
        r@[1].kind == BackendKind::KScreen && r@[1].gnome_priority == 2 && r@[1].kde_priority == 0
            && r@[1].fallback_priority == 1,
        r@[2].kind == BackendKind::Wlroots && r@[2].gnome_priority == 1 && r@[2].kde_priority == 1
            && r@[2].fallback_priority == 0,
{
    let mut v: Vec<BackendDescriptor> = Vec::new();
    v.push(
        BackendDescriptor {
            kind: BackendKind::Gnome,
            gnome_priority: 0,
            kde_priority: 2,
            fallback_priority: 2,
        },
    );
    v.push(
        BackendDescriptor {
            kind: BackendKind::KScreen,
            gnome_priority: 2,
            kde_priority: 0,
            fallback_priority: 1,
        },
    );
    v.push(
        BackendDescriptor {
            kind: BackendKind::Wlroots,
            gnome_priority: 1,
            kde_priority: 1,
            fallback_priority: 0,
        },
    );
    v
}

/// The backends to try for the session, in order.
pub fn backends_for_env(env: &SessionEnvironment) -> (r: Vec<BackendKind>)
    ensures
        r@ == backend_order(*env),
{
    let kde = env.is_kde_session();
    let gnome = env.is_gnome_session();
    let table = descriptors();
    let mut r: Vec<BackendKind> = Vec::new();
    let mut rank: u8 = 0;
    while rank < 3
        invariant
            rank <= 3,
            table@.len() == 3,
            table@[0].kind == BackendKind::Gnome && table@[0].gnome_priority == 0
                && table@[0].kde_priority == 2 && table@[0].fallback_priority == 2,
            table@[1].kind == BackendKind::KScreen && table@[1].gnome_priority == 2
                && table@[1].kde_priority == 0 && table@[1].fallback_priority == 1,
            table@[2].kind == BackendKind::Wlroots && table@[2].gnome_priority == 1
                && table@[2].kde_priority == 1 && table@[2].fallback_priority == 0,
            kde == env.is_kde_spec(),
            gnome == env.is_gnome_spec(),
            r@ == backend_order(*env).take(rank as int),
        decreases 3 - rank,
    {
        let mut k: usize = 0;
        let ghost before = r@;
        while k < 3
            invariant
                k <= 3,
                rank < 3,
                table@.len() == 3,
                table@[0].kind == BackendKind::Gnome && table@[0].gnome_priority == 0
                    && table@[0].kde_priority == 2 && table@[0].fallback_priority == 2,
                table@[1].kind == BackendKind::KScreen && table@[1].gnome_priority == 2
                    && table@[1].kde_priority == 0 && table@[1].fallback_priority == 1,
                table@[2].kind == BackendKind::Wlroots && table@[2].gnome_priority == 1
                    && table@[2].kde_priority == 1 && table@[2].fallback_priority == 0,
                kde == env.is_kde_spec(),
                gnome == env.is_gnome_spec(),
                before == backend_order(*env).take(rank as int),
                r@ == before + (if backend_order(*env)[rank as int] == table@[0].kind && k > 0 {
                    seq![table@[0].kind]
                } else if backend_order(*env)[rank as int] == table@[1].kind && k > 1 {
                    seq![table@[1].kind]
                } else if backend_order(*env)[rank as int] == table@[2].kind && k > 2 {
                    seq![table@[2].kind]
                } else {
                    Seq::empty()
                }),
            decreases 3 - k,
        {
            let d = &table[k];
            let p = if kde {
                d.kde_priority
            } else if gnome {
                d.gnome_priority
            } else {
                d.fallback_priority
            };
            if p == rank {
                r.push(d.kind);
            }
            k += 1;
        }
        assert(backend_order(*env).take(rank + 1) =~= before.push(backend_order(*env)[rank as int]));
        rank += 1;
    }
    assert(backend_order(*env).take(3) =~= backend_order(*env));
    r
}

/// The backend an override names (`gnome`; `kscreen` or `kde`; `wlroots`
/// or `wlr`), trimmed and compared without ASCII case.
pub open spec fn override_spec(value: Seq<char>) -> Option<BackendKind> {
    let v = trim(value);
    if lower_eq(v, "gnome"@) {
        Some(BackendKind::Gnome)
    } else if lower_eq(v, "kscreen"@) || lower_eq(v, "kde"@) {
        Some(BackendKind::KScreen)
    } else if lower_eq(v, "wlroots"@) || lower_eq(v, "wlr"@) {
        Some(BackendKind::Wlroots)
    } else {
        None
    }
}

pub fn parse_backend_override(value: &str) -> (r: Option<BackendKind>)
    ensures
        r == override_spec(value@),
{
    let chars = chars_of(value);
    let (start, end) = trim_bounds(&chars);
    let t = string_from_chars(&chars, start, end);
    let v = chars_of(t.as_str());
    if chars_lower_eq(&v, &chars_of("gnome")) {
        Some(BackendKind::Gnome)
    } else if chars_lower_eq(&v, &chars_of("kscreen")) || chars_lower_eq(&v, &chars_of("kde")) {
        Some(BackendKind::KScreen)
    } else if chars_lower_eq(&v, &chars_of("wlroots")) || chars_lower_eq(&v, &chars_of("wlr")) {
        Some(BackendKind::Wlroots)
    } else {
        None
    }
}

/// The backends to try: the one an override names (an error for a label
/// that names none), else the session's order.
pub fn backends_for_process(env: &SessionEnvironment, override_value: Option<String>) -> (r: Result<
    Vec<BackendKind>,
    BackendConnectionError,
>)
    ensures
        match override_value {
            Some(v) => match override_spec(v@) {
                Some(b) => r matches Ok(list) && list@ == seq![b],
                None => r matches Err(BackendConnectionError::UnknownBackendLabel { label })
                    && label@ == v@,
            },
            None => r matches Ok(list) && list@ == backend_order(*env),
        },
{
    match override_value {
        Some(value) => match parse_backend_override(value.as_str()) {
            Some(backend) => {
                let mut list: Vec<BackendKind> = Vec::new();
                list.push(backend);
                assert(list@ =~= seq![backend]);
                Ok(list)
            },
            None => Err(BackendConnectionError::UnknownBackendLabel { label: value }),
        },
        None => Ok(backends_for_env(env)),
    }
}

/// The note added to connection errors where `WAYLAND_DISPLAY` looks like a
/// path rather than a socket name.
pub fn display_hint(wayland_display: &str) -> (r: &'static str)
    ensures
        (exists|i: int| 0 <= i < wayland_display@.len() && wayland_display@[i] == '/') ==> r@
            == "; WAYLAND_DISPLAY should be a socket name like 'wayland-0', not a path"@,
        !(exists|i: int| 0 <= i < wayland_display@.len() && wayland_display@[i] == '/') ==> r@
            == ""@,
{
    let chars = chars_of(wayland_display);
    let mut i: usize = 0;
    while i < chars.len()
        invariant
            chars@ == wayland_display@,
            i <= chars@.len(),
            forall|j: int| 0 <= j < i ==> chars@[j] != '/',
        decreases chars@.len() - i,
    {
        if chars[i] == '/' {
            return "; WAYLAND_DISPLAY should be a socket name like 'wayland-0', not a path";
        }
        i += 1;
    }
    ""
}

/// A yes/no setting: `1`, `true`, `yes`, `on` or `0`, `false`, `no`, `off`,
/// trimmed and compared without ASCII case.
pub open spec fn env_bool_spec(value: Seq<char>) -> Option<bool> {
    let v = trim(value);
    if lower_eq(v, "1"@) || lower_eq(v, "true"@) || lower_eq(v, "yes"@) || lower_eq(v, "on"@) {
        Some(true)
    } else if lower_eq(v, "0"@) || lower_eq(v, "false"@) || lower_eq(v, "no"@) || lower_eq(
        v,
        "off"@,
    ) {
        Some(false)
    } else {
        None
    }
}

pub fn parse_env_bool(value: &str) -> (r: Option<bool>)
    ensures
        r == env_bool_spec(value@),
{
    let chars = chars_of(value);
    let (start, end) = trim_bounds(&chars);
    let t = string_from_chars(&chars, start, end);
    let v = chars_of(t.as_str());
    if chars_lower_eq(&v, &chars_of("1")) || chars_lower_eq(&v, &chars_of("true")) || chars_lower_eq(
        &v,
        &chars_of("yes"),
    ) || chars_lower_eq(&v, &chars_of("on")) {
        Some(true)
    } else if chars_lower_eq(&v, &chars_of("0")) || chars_lower_eq(&v, &chars_of("false"))
        || chars_lower_eq(&v, &chars_of("no")) || chars_lower_eq(&v, &chars_of("off")) {
        Some(false)
    } else {
        None
    }
}

} // verus!
