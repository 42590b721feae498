//! Errors of the library and the messages they are reported with.
use vstd::prelude::*;

use crate::model::LimitViolation;
use crate::planner::PlanError;
use crate::text::{join, join_strings, push_str, views};

verus! {

/// One backend that was tried, and the error it failed with (as its message).
#[derive(Debug, PartialEq)]
pub struct BackendConnectionAttempt {
    pub backend: &'static str,
    pub error: String,
}

pub open spec fn attempt_text(a: BackendConnectionAttempt) -> Seq<char> {
    a.backend@ + ": "@ + a.error@
}

pub open spec fn attempt_texts(s: Seq<BackendConnectionAttempt>) -> Seq<Seq<char>> {
    s.map_values(|a: BackendConnectionAttempt| attempt_text(a))
}

/// The attempts as reported: each as `backend: error`, joined by `; `, or
/// `none` where there were none.
pub open spec fn attempts_text(s: Seq<BackendConnectionAttempt>) -> Seq<char> {
    if s.len() == 0 {
        "none"@
    } else {
        join(attempt_texts(s), "; "@)
    }
}

impl BackendConnectionAttempt {
    pub fn new(backend: &'static str, error: String) -> (r: Self)
        ensures
            r.backend == backend,
            r.error == error,
    {
        BackendConnectionAttempt { backend, error }
    }

    /// `backend: error`.
    pub fn to_string(&self) -> (r: String)
        ensures
            r@ == attempt_text(*self),
    {
        let mut s = String::new();
        push_str(&mut s, self.backend);
        push_str(&mut s, ": ");
        push_str(&mut s, self.error.as_str());
        s
    }
}

/// The report of a list of connection attempts.
pub fn format_backend_connection_attempts(attempts: &Vec<BackendConnectionAttempt>) -> (r: String)
    ensures
        r@ == attempts_text(attempts@),
{
    if attempts.len() == 0 {
        return "none".to_owned();
    }
    let mut parts: Vec<String> = Vec::new();
    let mut i: usize = 0;
    while i < attempts.len()
        invariant
            i <= attempts@.len(),
            views(parts@) == attempt_texts(attempts@.take(i as int)),
        decreases attempts@.len() - i,
    {
        let part = attempts[i].to_string();
        let ghost old_parts = parts@;
        parts.push(part);
        proof {
            assert(views(parts@) =~= views(old_parts).push(part@));
            assert(attempts@.take(i + 1) =~= attempts@.take(i as int).push(attempts@[i as int]));
            assert(attempt_texts(attempts@.take(i + 1)) =~= attempt_texts(attempts@.take(i as int)).push(
                attempt_text(attempts@[i as int]),
            ));
        }
        i += 1;
    }
    assert(attempts@.take(attempts@.len() as int) =~= attempts@);
    join_strings(&parts, "; ")
}

/// Why no backend could be connected.
#[derive(Debug, PartialEq)]
pub enum BackendConnectionError {
    UnknownBackendLabel { label: String },
    Initialize { backend: &'static str, source: String },
    NoSupportedBackend {
        wayland_display: String,
        xdg_runtime_dir: String,
        display_hint: String,
        attempts: Vec<BackendConnectionAttempt>,
    },
}

pub open spec fn connection_error_message(e: BackendConnectionError) -> Seq<char> {
    match e {
        BackendConnectionError::UnknownBackendLabel { label } => "unknown backend label `"@
            + label@ + "`"@,
        BackendConnectionError::Initialize { backend, source } => "failed to initialize "@
            + backend@ + " backend: "@ + source@,
        BackendConnectionError::NoSupportedBackend {
            wayland_display,
            xdg_runtime_dir,
            display_hint,
            attempts,
        } => "failed to connect to a supported backend (WAYLAND_DISPLAY="@ + wayland_display@
            + ", XDG_RUNTIME_DIR="@ + xdg_runtime_dir@ + display_hint@ + "); attempts: "@
            + attempts_text(attempts@),
    }
}

impl BackendConnectionError {
    pub fn to_string(&self) -> (r: String)
        ensures
            r@ == connection_error_message(*self),
    {
        let mut s = String::new();
        match self {
            BackendConnectionError::UnknownBackendLabel { label } => {
                push_str(&mut s, "unknown backend label `");
                push_str(&mut s, label.as_str());
                push_str(&mut s, "`");
            },
            BackendConnectionError::Initialize { backend, source } => {
                push_str(&mut s, "failed to initialize ");
                push_str(&mut s, backend);
                push_str(&mut s, " backend: ");
                push_str(&mut s, source.as_str());
            },
            BackendConnectionError::NoSupportedBackend {
                wayland_display,
                xdg_runtime_dir,
                display_hint,
                attempts,
            } => {
                push_str(&mut s, "failed to connect to a supported backend (WAYLAND_DISPLAY=");
                push_str(&mut s, wayland_display.as_str());
                push_str(&mut s, ", XDG_RUNTIME_DIR=");
                push_str(&mut s, xdg_runtime_dir.as_str());
                push_str(&mut s, display_hint.as_str());
                push_str(&mut s, "); attempts: ");
                let text = format_backend_connection_attempts(attempts);
                push_str(&mut s, text.as_str());
            },
        }
        s
    }
}

/// The errors of the library's own logic. (Errors of reading and writing
/// files, and of the outside services, are the application's.)
#[derive(Debug, PartialEq)]
pub enum CoreError {
    AmbiguousProfile(String),
    InvalidProfileName { name: String, reason: String },
    InvalidTopology(LimitViolation),
    ProfileMismatch,
    Backend(String),
    BackendConnection(BackendConnectionError),
    Plan(PlanError),
}

/// The message of an error, where the library can render it: every error
/// but a topology that reports a scale out of range, whose scale the
/// application renders from its bit pattern.
pub open spec fn core_error_message(e: CoreError) -> Option<Seq<char>> {
    match e {
        CoreError::AmbiguousProfile(name) => Some(
            "profile '"@ + name@ + "' is ambiguous across setup fingerprints; use the matching hardware setup"@,
        ),
        CoreError::InvalidProfileName { name, reason } => Some(
            "invalid profile name '"@ + name@ + "': "@ + reason@,
        ),
        CoreError::InvalidTopology(LimitViolation::Message(m)) => Some("invalid backend topology: "@ + m@),
        CoreError::InvalidTopology(LimitViolation::InvalidScale { .. }) => None,
        CoreError::ProfileMismatch => Some("profile does not match current topology"@),
        CoreError::Backend(source) => Some("backend error: "@ + source@),
        CoreError::BackendConnection(c) => Some(connection_error_message(c)),
        CoreError::Plan(p) => Some("plan error: "@ + crate::planner::plan_error_message(p@)),
    }
}

impl CoreError {
    pub fn to_string(&self) -> (r: Option<String>)
        ensures
            crate::text::opt_view(r) == core_error_message(*self),
    {
        let mut s = String::new();
        match self {
            CoreError::AmbiguousProfile(name) => {
                push_str(&mut s, "profile '");
                push_str(&mut s, name.as_str());
                push_str(&mut s, "' is ambiguous across setup fingerprints; use the matching hardware setup");
            },
            CoreError::InvalidProfileName { name, reason } => {
                push_str(&mut s, "invalid profile name '");
                push_str(&mut s, name.as_str());
                push_str(&mut s, "': ");
                push_str(&mut s, reason.as_str());
            },
            CoreError::InvalidTopology(LimitViolation::Message(m)) => {
                push_str(&mut s, "invalid backend topology: ");
                push_str(&mut s, m.as_str());
            },
            CoreError::InvalidTopology(LimitViolation::InvalidScale { .. }) => {
                return None;
            },
            CoreError::ProfileMismatch => {
                push_str(&mut s, "profile does not match current topology");
            },
            CoreError::Backend(source) => {
                push_str(&mut s, "backend error: ");
                push_str(&mut s, source.as_str());
            },
            CoreError::BackendConnection(c) => {
                let text = c.to_string();
                push_str(&mut s, text.as_str());
            },
            CoreError::Plan(p) => {
                push_str(&mut s, "plan error: ");
                let text = p.to_string();
                push_str(&mut s, text.as_str());
            },
        }
        Some(s)
    }
}

} // verus!
