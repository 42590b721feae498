//! The wlroots backend's logic: what the compositor's answers to a
//! configuration mean, how a plan becomes per-head requests, and how the
//! heads the output-management protocol reports become a topology.
use vstd::prelude::*;

use super::{areas_fit, dedup_spec, listed_before_fn, names_virtual, sorted_unique_modes};
use crate::assoc::{assoc_set, names_of, view_names};
use crate::engine::{ApplyResult, ConfigFailureKind, TestResult, ValidationStatus};
use crate::model::identity::{normalized_identity_value, normalized_value, OutputIdentityView};
use crate::model::{Mode, OutputIdentity, OutputState, OutputStateView, Position, Topology, Transform};
use crate::planner::LayoutPlan;
use crate::text::{
    chars_lower_contains, chars_of, copy_opt_string, decimal, lower_contains, opt_view, push_decimal,
    push_str, sort_by,
};

verus! {

// ---------------------------------------------------------------------------
// The compositor's answer to a configuration
// ---------------------------------------------------------------------------

/// How the compositor answered a configuration request.
#[derive(Debug, Clone, Copy, PartialEq, Eq, Structural)]
pub enum ConfigStatus {
    Succeeded,
    Failed,
    Cancelled,
}

pub open spec fn status_label(s: ConfigStatus) -> Seq<char> {
    match s {
        ConfigStatus::Succeeded => "succeeded"@,
        ConfigStatus::Failed => "failed"@,
        ConfigStatus::Cancelled => "cancelled"@,
    }
}

impl ConfigStatus {
    /// The stable label used in logs.
    pub fn as_label(self) -> (r: &'static str)
        ensures
            r@ == status_label(self),
    {
        match self {
            ConfigStatus::Succeeded => "succeeded",
            ConfigStatus::Failed => "failed",
            ConfigStatus::Cancelled => "cancelled",
        }
    }
}

/// A refusal is a rejection; a cancellation means the outputs changed
/// under the request.
pub open spec fn config_failure_spec(s: ConfigStatus) -> Option<ConfigFailureKind> {
    match s {
        ConfigStatus::Succeeded => None,
        ConfigStatus::Failed => Some(ConfigFailureKind::Rejected),
        ConfigStatus::Cancelled => Some(ConfigFailureKind::TopologyChanged),
    }
}

pub fn config_failure(status: ConfigStatus) -> (r: Option<ConfigFailureKind>)
    ensures
        r == config_failure_spec(status),
{
    match status {
        ConfigStatus::Succeeded => None,
        ConfigStatus::Failed => Some(ConfigFailureKind::Rejected),
        ConfigStatus::Cancelled => Some(ConfigFailureKind::TopologyChanged),
    }
}

pub open spec fn validation_message_spec(s: ConfigStatus, changes: nat) -> Seq<char> {
    match s {
        ConfigStatus::Succeeded => "wlroots validated "@ + decimal(changes) + " output changes"@,
        ConfigStatus::Failed => "wlroots compositor rejected the configuration"@,
        ConfigStatus::Cancelled => "wlroots compositor cancelled the configuration because topology changed"@,
    }
}

/// The verdict on a plan from the compositor's answer to a test-only
/// request for it.
pub fn validation_from_status(status: ConfigStatus, plan: &LayoutPlan) -> (r: TestResult)
    ensures
        r.message is Some,
        r.message->0@ == validation_message_spec(status, plan.outputs@.len()),
        r.failure == config_failure_spec(status),
        r.success <==> status == ConfigStatus::Succeeded,
        r.status == (if status == ConfigStatus::Succeeded {
            ValidationStatus::Supported
        } else {
            ValidationStatus::Rejected
        }),
{
    let message = match status {
        ConfigStatus::Succeeded => {
            let mut m = String::new();
            push_str(&mut m, "wlroots validated ");
            push_decimal(&mut m, plan.outputs.len() as u128);
            push_str(&mut m, " output changes");
            m
        },
        ConfigStatus::Failed => "wlroots compositor rejected the configuration".to_owned(),
        ConfigStatus::Cancelled => "wlroots compositor cancelled the configuration because topology changed".to_owned(),
    };
    match status {
        ConfigStatus::Succeeded => TestResult::supported(Some(message)),
        _ => TestResult::rejected(config_failure(status), Some(message)),
    }
}

pub open spec fn apply_message_spec(s: ConfigStatus) -> Seq<char> {
    match s {
        ConfigStatus::Succeeded => "applied successfully"@,
        ConfigStatus::Failed => "compositor rejected the configuration"@,
        ConfigStatus::Cancelled => "configuration cancelled because topology changed"@,
    }
}

/// The outcome of applying a plan from the compositor's answer;
/// `applied_state` is what the outputs look like afterwards, read only
/// when the compositor took the configuration.
pub fn apply_from_status(status: ConfigStatus, applied_state: Option<Topology>) -> (r: ApplyResult)
    ensures
        r.message is Some,
        r.message->0@ == apply_message_spec(status),
        r.failure == config_failure_spec(status),
        r.success <==> status == ConfigStatus::Succeeded,
        r.applied_state == (if status == ConfigStatus::Succeeded {
            applied_state
        } else {
            None
        }),
{
    match status {
        ConfigStatus::Succeeded => ApplyResult::applied(Some("applied successfully".to_owned()), applied_state),
        ConfigStatus::Failed => ApplyResult::failed(
            config_failure(status),
            Some("compositor rejected the configuration".to_owned()),
        ),
        ConfigStatus::Cancelled => ApplyResult::failed(
            config_failure(status),
            Some("configuration cancelled because topology changed".to_owned()),
        ),
    }
}

/// A cancelled request is sent again, up to `attempts` tries in all (at
/// least one).
pub fn should_retry_submission(status: ConfigStatus, attempt: usize, attempts: usize) -> (r: bool)
    ensures
        r <==> (status == ConfigStatus::Cancelled && attempt < (if attempts == 0 {
            1
        } else {
            attempts as int
        })),
{
    let limit = if attempts == 0 {
        1
    } else {
        attempts
    };
    status == ConfigStatus::Cancelled && attempt < limit
}

pub open spec fn submit_rejection_message(source: Seq<char>) -> Seq<char> {
    "wlroots rejected the configuration: "@ + source
}

/// A request the backend refused before sending it, as a validation verdict.
pub fn validation_rejection_from_submit_error(source: &str) -> (r: TestResult)
    ensures
        !r.success,
        r.status == ValidationStatus::Rejected,
        r.failure == Some(ConfigFailureKind::Rejected),
        r.message is Some,
        r.message->0@ == submit_rejection_message(source@),
{
    let mut m = String::new();
    push_str(&mut m, "wlroots rejected the configuration: ");
    push_str(&mut m, source);
    TestResult::rejected(Some(ConfigFailureKind::Rejected), Some(m))
}

pub open spec fn apply_failure_message(source: Seq<char>) -> Seq<char> {
    "wlroots failed to apply the configuration: "@ + source
}

/// A request the backend refused before sending it, as an apply outcome.
pub fn apply_failure_from_submit_error(source: &str) -> (r: ApplyResult)
    ensures
        !r.success,
        r.failure == Some(ConfigFailureKind::Rejected),
        r.applied_state is None,
        r.message is Some,
        r.message->0@ == apply_failure_message(source@),
{
    let mut m = String::new();
    push_str(&mut m, "wlroots failed to apply the configuration: ");
    push_str(&mut m, source);
    ApplyResult::failed(Some(ConfigFailureKind::Rejected), Some(m))
}

// ---------------------------------------------------------------------------
// Heads as the protocol reports them
// ---------------------------------------------------------------------------

/// A mode of a head: its protocol id, its size and refresh rate in mHz as
/// far as the compositor sent them, and whether it is preferred.
#[derive(Debug, Clone, Copy, PartialEq, Eq, Structural)]
pub struct ProjectedMode {
    pub id: u32,
    pub width: Option<u32>,
    pub height: Option<u32>,
    pub refresh: Option<u32>,
    pub preferred: bool,
}

/// A head: what the compositor said of one output. `scale` holds the
/// scale factor as the bit pattern of an IEEE-754 binary64 value.
#[derive(Debug, PartialEq)]
pub struct ProjectedHead {
    pub name: Option<String>,
    pub description: Option<String>,
    pub make: Option<String>,
    pub model: Option<String>,
    pub serial: Option<String>,
    pub enabled: bool,
    pub position: Position,
    pub transform: Transform,
    pub scale: u64,
    pub current_mode: Option<u32>,
    pub modes: Vec<ProjectedMode>,
}

/// Refresh rates come in mHz and are kept in whole Hz, rounded down; an
/// unknown rate counts as zero.
pub open spec fn round_refresh_spec(refresh_millihz: Option<u32>) -> u32 {
    match refresh_millihz {
        Some(r) => (r / 1000) as u32,
        None => 0,
    }
}

pub fn round_refresh(refresh_millihz: Option<u32>) -> (r: u32)
    ensures
        r == round_refresh_spec(refresh_millihz),
{
    match refresh_millihz {
        Some(r) => r / 1000,
        None => 0,
    }
}

/// A head is enabled exactly when the compositor says so, whatever mode
/// it still lists.
pub fn head_is_enabled(enabled: bool) -> (r: bool)
    ensures
        r == enabled,
{
    enabled
}

/// Descriptions of virtual, headless or X11 outputs, in any case.
pub open spec fn virtual_description_spec(d: Seq<char>) -> bool {
    names_virtual(d) || lower_contains(d, "x11"@)
}

pub fn is_virtual_description(description: &str) -> (r: bool)
    ensures
        r == virtual_description_spec(description@),
{
    let c = chars_of(description);
    super::text_names_virtual(description) || chars_lower_contains(&c, &chars_of("x11"))
}

/// Sets `field` to `value` trimmed, unless that is empty or a placeholder,
/// in which case `field` keeps what it held.
pub fn update_identity_field(field: &mut Option<String>, value: &str)
    ensures
        normalized_value(Some(value@)) is Some ==> opt_view(*final(field)) == normalized_value(
            Some(value@),
        ),
        normalized_value(Some(value@)) is None ==> *final(field) == *old(field),
{
    if let Some(v) = normalized_identity_value(Some(value)) {
        *field = Some(v);
    }
}

/// The mode a head's mode stands for, when its size is known.
pub open spec fn projected_mode_spec(m: ProjectedMode) -> Option<Mode> {
    match (m.width, m.height) {
        (Some(w), Some(h)) => Some(Mode { width: w, height: h, refresh: round_refresh_spec(m.refresh) }),
        _ => None,
    }
}

pub fn mode_for_projection(m: &ProjectedMode) -> (r: Option<Mode>)
    ensures
        r == projected_mode_spec(*m),
{
    match (m.width, m.height) {
        (Some(w), Some(h)) => Some(Mode { width: w, height: h, refresh: round_refresh(m.refresh) }),
        _ => None,
    }
}

/// What a search among a head's modes looks for.
#[derive(Debug, Clone, Copy, PartialEq, Eq, Structural)]
pub enum ModeQuery {
    Id(u32),
    Preferred,
    Complete,
    Exact(Mode),
}

pub open spec fn query_hit(m: ProjectedMode, q: ModeQuery) -> bool {
    match q {
        ModeQuery::Id(id) => m.id == id,
        ModeQuery::Preferred => m.preferred,
        ModeQuery::Complete => projected_mode_spec(m) is Some,
        ModeQuery::Exact(mode) => projected_mode_spec(m) == Some(mode),
    }
}

/// The first mode that the query finds.
pub open spec fn first_hit(ms: Seq<ProjectedMode>, q: ModeQuery) -> Option<int> {
    if exists|i: int| 0 <= i < ms.len() && #[trigger] query_hit(ms[i], q) {
        Some(
            choose|i: int|
                0 <= i < ms.len() && #[trigger] query_hit(ms[i], q) && forall|j: int|
                    0 <= j < i ==> !#[trigger] query_hit(ms[j], q),
        )
    } else {
        None
    }
}

pub fn find_mode(ms: &Vec<ProjectedMode>, q: ModeQuery) -> (r: Option<usize>)
    ensures
        match r {
            Some(i) => first_hit(ms@, q) == Some(i as int) && i < ms@.len(),
            None => first_hit(ms@, q) is None,
        },
{
    let mut i: usize = 0;
    while i < ms.len()
        invariant
            i <= ms@.len(),
            forall|j: int| 0 <= j < i ==> !#[trigger] query_hit(ms@[j], q),
        decreases ms@.len() - i,
    {
        let m = ms[i];
        let hit = match q {
            ModeQuery::Id(id) => m.id == id,
            ModeQuery::Preferred => m.preferred,
            ModeQuery::Complete => mode_for_projection(&m).is_some(),
            ModeQuery::Exact(mode) => match mode_for_projection(&m) {
                Some(x) => x == mode,
                None => false,
            },
        };
        if hit {
            assert(query_hit(ms@[i as int], q));
            proof {
                let c = first_hit(ms@, q)->0;
                assert(query_hit(ms@[c], q));
                if c < i {
                    assert(!query_hit(ms@[c], q));
                }
                if c > i {
                    assert(!query_hit(ms@[i as int], q));
                }
            }
            return Some(i);
        }
        i += 1;
    }
    None
}

pub open spec fn mode_at(ms: Seq<ProjectedMode>, i: Option<int>) -> Option<Mode> {
    match i {
        Some(k) => projected_mode_spec(ms[k]),
        None => None,
    }
}

/// A head's mode: the current one if its size is known, else the first
/// preferred one if its size is known, else the first one whose size is
/// known.
pub open spec fn current_mode_spec(current: Option<u32>, ms: Seq<ProjectedMode>) -> Option<Mode> {
    let from_current = match current {
        Some(id) => mode_at(ms, first_hit(ms, ModeQuery::Id(id))),
        None => None,
    };
    if from_current is Some {
        from_current
    } else {
        let from_preferred = mode_at(ms, first_hit(ms, ModeQuery::Preferred));
        if from_preferred is Some {
            from_preferred
        } else {
            mode_at(ms, first_hit(ms, ModeQuery::Complete))
        }
    }
}

fn mode_of_hit(ms: &Vec<ProjectedMode>, q: ModeQuery) -> (r: Option<Mode>)
    ensures
        r == mode_at(ms@, first_hit(ms@, q)),
{
    match find_mode(ms, q) {
        Some(i) => mode_for_projection(&ms[i]),
        None => None,
    }
}

pub fn current_mode_from_projection(current: Option<u32>, modes: &Vec<ProjectedMode>) -> (r: Option<Mode>)
    ensures
        r == current_mode_spec(current, modes@),
{
    let from_current = match current {
        Some(id) => mode_of_hit(modes, ModeQuery::Id(id)),
        None => None,
    };
    if from_current.is_some() {
        return from_current;
    }
    let from_preferred = mode_of_hit(modes, ModeQuery::Preferred);
    if from_preferred.is_some() {
        return from_preferred;
    }
    mode_of_hit(modes, ModeQuery::Complete)
}

/// The modes whose size is known, in order.
pub open spec fn complete_modes(ms: Seq<ProjectedMode>) -> Seq<Mode>
    decreases ms.len(),
{
    if ms.len() == 0 {
        Seq::empty()
    } else {
        let rest = complete_modes(ms.drop_last());
        match projected_mode_spec(ms.last()) {
            Some(m) => rest.push(m),
            None => rest,
        }
    }
}

/// A head's modes of known size, sorted by area, then refresh rate, with
/// repeats removed.
pub open spec fn available_modes_spec(ms: Seq<ProjectedMode>) -> Seq<Mode> {
    dedup_spec(sort_by(complete_modes(ms), listed_before_fn()))
}

pub fn available_modes_from_projection(modes: &Vec<ProjectedMode>) -> (r: Vec<Mode>)
    requires
        areas_fit(complete_modes(modes@)),
    ensures
        r@ == available_modes_spec(modes@),
{
    let mut known: Vec<Mode> = Vec::new();
    let mut i: usize = 0;
    while i < modes.len()
        invariant
            i <= modes@.len(),
            known@ == complete_modes(modes@.take(i as int)),
        decreases modes@.len() - i,
    {
        assert(modes@.take(i + 1).drop_last() =~= modes@.take(i as int));
        if let Some(m) = mode_for_projection(&modes[i]) {
            known.push(m);
        }
        i += 1;
    }
    assert(modes@.take(modes@.len() as int) =~= modes@);
    sorted_unique_modes(known)
}

/// The output a named head becomes.
pub open spec fn head_state_spec(h: ProjectedHead, name: Seq<char>) -> OutputStateView {
    OutputStateView {
        identity: OutputIdentityView {
            edid_hash: None,
            make: opt_view(h.make),
            model: opt_view(h.model),
            serial: opt_view(h.serial),
            connector: Some(name),
            description: opt_view(h.description),
            is_virtual: match h.description {
                Some(d) => virtual_description_spec(d@),
                None => false,
            },
            is_ignored: false,
        },
        enabled: h.enabled,
        mode: current_mode_spec(h.current_mode, h.modes@),
        available_modes: available_modes_spec(h.modes@),
        position: h.position,
        scale: h.scale,
        scaled_resolution: None,
        transform: h.transform,
        mirror_target: None,
        backend_data: None,
    }
}

/// A head's modes fit the backend's area arithmetic.
pub open spec fn head_modes_fit(h: ProjectedHead) -> bool {
    areas_fit(complete_modes(h.modes@))
}

/// The output a head becomes, under its name; an unnamed head becomes none.
pub fn output_state_from_projection(head: &ProjectedHead) -> (r: Option<(String, OutputState)>)
    requires
        head_modes_fit(*head),
    ensures
        head.name is None ==> r is None,
        head.name is Some ==> match r {
            Some(entry) => entry.0@ == head.name->0@ && entry.1@ == head_state_spec(*head, head.name->0@),
            None => false,
        },
{
    let name = match &head.name {
        Some(n) => n.clone(),
        None => return None,
    };
    let is_virtual = match &head.description {
        Some(d) => is_virtual_description(d.as_str()),
        None => false,
    };
    let identity = OutputIdentity {
        edid_hash: None,
        make: copy_opt_string(&head.make),
        model: copy_opt_string(&head.model),
        serial: copy_opt_string(&head.serial),
        connector: Some(name.clone()),
        description: copy_opt_string(&head.description),
        is_virtual,
        is_ignored: false,
    };
    let state = OutputState {
        identity,
        enabled: head_is_enabled(head.enabled),
        mode: current_mode_from_projection(head.current_mode, &head.modes),
        available_modes: available_modes_from_projection(&head.modes),
        position: head.position,
        scale: head.scale,
        scaled_resolution: None,
        transform: head.transform,
        mirror_target: None,
        backend_data: None,
    };
    Some((name, state))
}

pub open spec fn heads_fit(heads: Seq<ProjectedHead>) -> bool {
    forall|i: int| 0 <= i < heads.len() ==> head_modes_fit(#[trigger] heads[i])
}

/// The topology of the first `n` heads: each named head sets the output of
/// its name, a later head replacing an earlier one of the same name.
pub open spec fn export_heads_spec(heads: Seq<ProjectedHead>, n: int) -> Seq<(Seq<char>, OutputStateView)>
    decreases n,
{
    if n <= 0 {
        Seq::empty()
    } else {
        let h = heads[n - 1];
        match h.name {
            Some(name) => assoc_set(export_heads_spec(heads, n - 1), name@, head_state_spec(h, name@)),
            None => export_heads_spec(heads, n - 1),
        }
    }
}

/// The topology of the heads the compositor reported.
pub fn export_protocol_topology(heads: &Vec<ProjectedHead>) -> (r: Topology)
    requires
        heads_fit(heads@),
    ensures
        r.wf(),
        r@ == export_heads_spec(heads@, heads@.len() as int),
{
    let mut topology = Topology::new();
    assert(topology@ =~= Seq::<(Seq<char>, OutputStateView)>::empty());
    let mut i: usize = 0;
    while i < heads.len()
        invariant
            heads_fit(heads@),
            i <= heads@.len(),
            topology.wf(),
            topology@ == export_heads_spec(heads@, i as int),
        decreases heads@.len() - i,
    {
        assert(head_modes_fit(heads@[i as int]));
        if let Some((name, state)) = output_state_from_projection(&heads[i]) {
            proof {
                crate::assoc::lemma_kv_names(topology.outputs@);
                assert(view_names(topology@) =~= names_of(topology.outputs@));
            }
            topology.insert(name, state);
        }
        i += 1;
    }
    topology
}

// ---------------------------------------------------------------------------
// A plan as per-head requests
// ---------------------------------------------------------------------------

/// The protocol's transform numbers: 0 to 3 rotate, 4 to 7 flip and rotate.
pub open spec fn transform_to_wl_spec(t: Transform) -> u32 {
    match t {
        Transform::Normal => 0,
        Transform::Rot90 => 1,
        Transform::Rot180 => 2,
        Transform::Rot270 => 3,
        Transform::Flipped => 4,
        Transform::Flipped90 => 5,
        Transform::Flipped180 => 6,
        Transform::Flipped270 => 7,
    }
}

pub fn transform_to_wl(t: Transform) -> (r: u32)
    ensures
        r == transform_to_wl_spec(t),
{
    match t {
        Transform::Normal => 0,
        Transform::Rot90 => 1,
        Transform::Rot180 => 2,
        Transform::Rot270 => 3,
        Transform::Flipped => 4,
        Transform::Flipped90 => 5,
        Transform::Flipped180 => 6,
        Transform::Flipped270 => 7,
    }
}

/// The transform a protocol number stands for; a number the protocol does
/// not define counts as no transform.
pub open spec fn transform_from_wl_spec(value: u32) -> Transform {
    if value == 1 {
        Transform::Rot90
    } else if value == 2 {
        Transform::Rot180
    } else if value == 3 {
        Transform::Rot270
    } else if value == 4 {
        Transform::Flipped
    } else if value == 5 {
        Transform::Flipped90
    } else if value == 6 {
        Transform::Flipped180
    } else if value == 7 {
        Transform::Flipped270
    } else {
        Transform::Normal
    }
}

pub fn transform_from_wl(value: u32) -> (r: Transform)
    ensures
        r == transform_from_wl_spec(value),
{
    if value == 1 {
        Transform::Rot90
    } else if value == 2 {
        Transform::Rot180
    } else if value == 3 {
        Transform::Rot270
    } else if value == 4 {
        Transform::Flipped
    } else if value == 5 {
        Transform::Flipped90
    } else if value == 6 {
        Transform::Flipped180
    } else if value == 7 {
        Transform::Flipped270
    } else {
        Transform::Normal
    }
}

/// A transform sent to the compositor reads back as the same transform.
pub proof fn lemma_wl_transform_roundtrip(t: Transform)
    ensures
        transform_from_wl_spec(transform_to_wl_spec(t)) == t,
{
}

/// Why the backend refuses to configure a head before asking the compositor.
#[derive(Debug, Clone, Copy, PartialEq, Eq, Structural)]
pub enum HeadConfigError {
    WidthOutOfRange,
    HeightOutOfRange,
    RefreshOutOfRange,
    MirrorUnsupported,
}

pub open spec fn head_error_message(e: HeadConfigError) -> Seq<char> {
    match e {
        HeadConfigError::WidthOutOfRange => "wlroots mode width does not fit in i32: out of range integral type conversion attempted"@,
        HeadConfigError::HeightOutOfRange => "wlroots mode height does not fit in i32: out of range integral type conversion attempted"@,
        HeadConfigError::RefreshOutOfRange => "wlroots mode refresh does not fit in i32: out of range integral type conversion attempted"@,
        HeadConfigError::MirrorUnsupported => "wlroots mirroring is not implemented in this backend"@,
    }
}

impl HeadConfigError {
    pub fn message(&self) -> (r: String)
        ensures
            r@ == head_error_message(*self),
    {
        match self {
            HeadConfigError::WidthOutOfRange => "wlroots mode width does not fit in i32: out of range integral type conversion attempted".to_owned(),
            HeadConfigError::HeightOutOfRange => "wlroots mode height does not fit in i32: out of range integral type conversion attempted".to_owned(),
            HeadConfigError::RefreshOutOfRange => "wlroots mode refresh does not fit in i32: out of range integral type conversion attempted".to_owned(),
            HeadConfigError::MirrorUnsupported => "wlroots mirroring is not implemented in this backend".to_owned(),
        }
    }
}

/// A mode's refresh rate in mHz, saturating at `u32::MAX`.
pub open spec fn refresh_millihz(m: Mode) -> int {
    if m.refresh * 1000 > u32::MAX {
        u32::MAX as int
    } else {
        m.refresh * 1000
    }
}

/// A mode as the protocol's custom-mode numbers: width, height and refresh
/// rate in mHz, each of which must fit `i32`.
pub open spec fn custom_mode_spec(m: Mode) -> Result<(i32, i32, i32), HeadConfigError> {
    if m.width > i32::MAX {
        Err(HeadConfigError::WidthOutOfRange)
    } else if m.height > i32::MAX {
        Err(HeadConfigError::HeightOutOfRange)
    } else if refresh_millihz(m) > i32::MAX {
        Err(HeadConfigError::RefreshOutOfRange)
    } else {
        Ok((m.width as i32, m.height as i32, refresh_millihz(m) as i32))
    }
}

pub fn custom_mode_values(mode: Mode) -> (r: Result<(i32, i32, i32), HeadConfigError>)
    ensures
        r == custom_mode_spec(mode),
{
    if mode.width > 0x7fff_ffff {
        return Err(HeadConfigError::WidthOutOfRange);
    }
    if mode.height > 0x7fff_ffff {
        return Err(HeadConfigError::HeightOutOfRange);
    }
    let millihz: u32 = if mode.refresh > 4_294_967 {
        0xffff_ffff
    } else {
        mode.refresh * 1000
    };
    if millihz > 0x7fff_ffff {
        return Err(HeadConfigError::RefreshOutOfRange);
    }
    Ok((mode.width as i32, mode.height as i32, millihz as i32))
}

/// What stops the backend from configuring an output as the plan asks:
/// a mode it cannot express, or a mirror, which it does not do.
pub open spec fn requested_config_error(d: OutputStateView) -> Option<HeadConfigError> {
    match d.mode {
        Some(m) if custom_mode_spec(m) is Err => Some(custom_mode_spec(m)->Err_0),
        _ => if d.mirror_target is Some {
            Some(HeadConfigError::MirrorUnsupported)
        } else {
            None
        },
    }
}

pub fn validate_requested_head_config(desired: &OutputState) -> (r: Result<(), HeadConfigError>)
    ensures
        match r {
            Ok(()) => requested_config_error(desired@) is None,
            Err(e) => requested_config_error(desired@) == Some(e),
        },
{
    if let Some(mode) = desired.mode {
        if let Err(e) = custom_mode_values(mode) {
            return Err(e);
        }
    }
    if desired.mirror_target.is_some() {
        return Err(HeadConfigError::MirrorUnsupported);
    }
    Ok(())
}

/// How a head's mode is set: one of its own modes, by id, or a custom mode.
#[derive(Debug, Clone, Copy, PartialEq, Eq, Structural)]
pub enum ModeRequest {
    Existing(u32),
    Custom(i32, i32, i32),
}

/// What the backend asks of one head.
#[derive(Debug, Clone, Copy, PartialEq, Eq, Structural)]
pub enum HeadConfig {
    /// An unnamed head is left alone.
    Skip,
    Disable,
    Enable { mode: Option<ModeRequest>, position: Position, scale: u64, transform: u32 },
}

/// The request for a mode: the head's first mode that is exactly it, else
/// the mode's custom numbers.
pub open spec fn mode_request_spec(ms: Seq<ProjectedMode>, m: Mode) -> ModeRequest {
    match first_hit(ms, ModeQuery::Exact(m)) {
        Some(i) => ModeRequest::Existing(ms[i].id),
        None => {
            let c = custom_mode_spec(m)->Ok_0;
            ModeRequest::Custom(c.0, c.1, c.2)
        },
    }
}

/// What the plan asks of a head: an unnamed head is skipped; one the plan
/// does not name, or names disabled, is disabled; any other is enabled with
/// the plan's mode, position, scale and transform, unless the backend
/// cannot express what the plan asks.
pub open spec fn head_config_spec(
    plan: Seq<(Seq<char>, OutputStateView)>,
    h: ProjectedHead,
) -> Result<HeadConfig, HeadConfigError> {
    match h.name {
        None => Ok(HeadConfig::Skip),
        Some(name) => match crate::assoc::lookup(plan, name@) {
            None => Ok(HeadConfig::Disable),
            Some(d) => if !d.enabled {
                Ok(HeadConfig::Disable)
            } else if requested_config_error(d) is Some {
                Err(requested_config_error(d)->0)
            } else {
                Ok(
                    HeadConfig::Enable {
                        mode: match d.mode {
                            Some(m) => Some(mode_request_spec(h.modes@, m)),
                            None => None,
                        },
                        position: d.position,
                        scale: d.scale,
                        transform: transform_to_wl_spec(d.transform),
                    },
                )
            },
        },
    }
}

pub fn head_config(plan: &LayoutPlan, head: &ProjectedHead) -> (r: Result<HeadConfig, HeadConfigError>)
    ensures
        r == head_config_spec(plan@.outputs, *head),
{
    let name = match &head.name {
        Some(n) => n,
        None => return Ok(HeadConfig::Skip),
    };
    let desired = match crate::assoc::assoc_get(&plan.outputs, name.as_str()) {
        Some(d) => d,
        None => return Ok(HeadConfig::Disable),
    };
    if !desired.enabled {
        return Ok(HeadConfig::Disable);
    }
    if let Err(e) = validate_requested_head_config(desired) {
        return Err(e);
    }
    let mode = match desired.mode {
        Some(m) => match find_mode(&head.modes, ModeQuery::Exact(m)) {
            Some(i) => Some(ModeRequest::Existing(head.modes[i].id)),
            None => match custom_mode_values(m) {
                Ok((w, h, r)) => Some(ModeRequest::Custom(w, h, r)),
                Err(e) => return Err(e),
            },
        },
        None => None,
    };
    Ok(
        HeadConfig::Enable {
            mode,
            position: desired.position,
            scale: desired.scale,
            transform: transform_to_wl(desired.transform),
        },
    )
}

/// The head a refusal is about, and why.
#[derive(Debug, PartialEq)]
pub struct SubmitRejection {
    pub output: String,
    pub error: HeadConfigError,
}

pub open spec fn output_rejection_message(output: Seq<char>, e: HeadConfigError) -> Seq<char> {
    "wlroots rejected output `"@ + output + "`: "@ + head_error_message(e)
}

impl SubmitRejection {
    pub fn message(&self) -> (r: String)
        ensures
            r@ == output_rejection_message(self.output@, self.error),
    {
        let mut m = String::new();
        push_str(&mut m, "wlroots rejected output `");
        push_str(&mut m, self.output.as_str());
        push_str(&mut m, "`: ");
        let e = self.error.message();
        push_str(&mut m, e.as_str());
        m
    }
}

/// The requests for the first `n` heads, or the first head the backend
/// cannot configure, by name.
pub open spec fn head_configs_spec(
    plan: Seq<(Seq<char>, OutputStateView)>,
    heads: Seq<ProjectedHead>,
    n: int,
) -> Result<Seq<HeadConfig>, (Seq<char>, HeadConfigError)>
    decreases n,
{
    if n <= 0 {
        Ok(Seq::empty())
    } else {
        match head_configs_spec(plan, heads, n - 1) {
            Err(e) => Err(e),
            Ok(done) => match head_config_spec(plan, heads[n - 1]) {
                Ok(c) => Ok(done.push(c)),
                Err(e) => Err((heads[n - 1].name->0@, e)),
            },
        }
    }
}

/// One request per head, in order, or the first head the plan cannot be
/// applied to.
pub fn plan_head_configs(plan: &LayoutPlan, heads: &Vec<ProjectedHead>) -> (r: Result<
    Vec<HeadConfig>,
    SubmitRejection,
>)
    ensures
        match r {
            Ok(v) => head_configs_spec(plan@.outputs, heads@, heads@.len() as int) == Ok::<
                Seq<HeadConfig>,
                (Seq<char>, HeadConfigError),
            >(v@),
            Err(e) => head_configs_spec(plan@.outputs, heads@, heads@.len() as int) == Err::<
                Seq<HeadConfig>,
                (Seq<char>, HeadConfigError),
            >((e.output@, e.error)),
        },
{
    let mut configs: Vec<HeadConfig> = Vec::new();
    let mut i: usize = 0;
    while i < heads.len()
        invariant
            i <= heads@.len(),
            head_configs_spec(plan@.outputs, heads@, i as int) == Ok::<
                Seq<HeadConfig>,
                (Seq<char>, HeadConfigError),
            >(configs@),
        decreases heads@.len() - i,
    {
        match head_config(plan, &heads[i]) {
            Ok(c) => configs.push(c),
            Err(e) => {
                let output = match &heads[i].name {
                    Some(n) => n.clone(),
                    None => String::new(),
                };
                proof {
                    lemma_failed_config_is_named(plan@.outputs, heads@[i as int]);
                    lemma_configs_fail_from(plan@.outputs, heads@, i as int + 1, heads@.len() as int);
                }
                return Err(SubmitRejection { output, error: e });
            },
        }
        i += 1;
    }
    Ok(configs)
}

proof fn lemma_failed_config_is_named(plan: Seq<(Seq<char>, OutputStateView)>, h: ProjectedHead)
    ensures
        head_config_spec(plan, h) is Err ==> h.name is Some,
{
}

/// Once a head fails, the whole list fails with that head.
proof fn lemma_configs_fail_from(
    plan: Seq<(Seq<char>, OutputStateView)>,
    heads: Seq<ProjectedHead>,
    k: int,
    n: int,
)
    requires
        1 <= k <= n,
        head_configs_spec(plan, heads, k) is Err,
    ensures
        head_configs_spec(plan, heads, n) == head_configs_spec(plan, heads, k),
    decreases n - k,
{
    if n > k {
        lemma_configs_fail_from(plan, heads, k, n - 1);
    }
}

} // verus!
