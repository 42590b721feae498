//! Layout planning: the layout that a matched profile, or a named preset,
//! gives the current topology.
use vstd::prelude::*;

pub mod modes;
pub mod order;
pub mod presets;
pub mod bounds;

pub use presets::{hint_view, plan_result_view, preset_fits, preset_spec};

use crate::assoc::{assoc_set, distinct_names, lookup, name_index, names_of, view_names};
use crate::matcher::{binding_views, MatchedOutputBinding};
use crate::model::identity::{identities_match_spec, OutputIdentityView};
use crate::model::{
    entry_views, identities_match, is_real_output, Mode, OutputIdentity, OutputState,
    OutputStateView, Position, Topology, VirtualPreset,
};
use crate::profile::{layout_views, OutputConfigView, Profile};
use crate::text::{chars_lower_contains, chars_lower_starts_with, chars_of, lower_contains,
    lower_starts_with, push_str,
};

verus! {

// ---------------------------------------------------------------------------
// Plans and planning errors
// ---------------------------------------------------------------------------

/// The state that each output named in the plan is to be given.
#[derive(Debug, PartialEq)]
pub struct LayoutPlan {
    pub outputs: Vec<(String, OutputState)>,
    pub preset_used: Option<VirtualPreset>,
}

pub ghost struct LayoutPlanView {
    pub outputs: Seq<(Seq<char>, OutputStateView)>,
    pub preset_used: Option<VirtualPreset>,
}

impl View for LayoutPlan {
    type V = LayoutPlanView;

    open spec fn view(&self) -> LayoutPlanView {
        LayoutPlanView { outputs: entry_views(self.outputs@), preset_used: self.preset_used }
    }
}

pub open spec fn any_enabled_real(s: Seq<(Seq<char>, OutputStateView)>) -> bool {
    exists|i: int| 0 <= i < s.len() && #[trigger] s[i].1.enabled && is_real_output(s[i].1)
}

impl LayoutPlan {
    /// Output names are distinct.
    pub open spec fn wf(self) -> bool {
        distinct_names(names_of(self.outputs@))
    }

    /// A plan that sets `outputs` and names no preset.
    pub fn new(outputs: Vec<(String, OutputState)>) -> (r: Self)
        ensures
            r.outputs@ == outputs@,
            r.preset_used is None,
    {
        LayoutPlan { outputs, preset_used: None }
    }

    /// The same plan, recorded as made by `preset_used`.
    pub fn with_preset_used(self, preset_used: VirtualPreset) -> (r: Self)
        ensures
            r.outputs@ == self.outputs@,
            r.preset_used == Some(preset_used),
    {
        LayoutPlan { outputs: self.outputs, preset_used: Some(preset_used) }
    }

    /// Whether the plan leaves at least one real output enabled.
    pub fn has_enabled_real_outputs(&self) -> (r: bool)
        ensures
            r == any_enabled_real(self@.outputs),
    {
        let mut i: usize = 0;
        while i < self.outputs.len()
            invariant
                i <= self.outputs@.len(),
                forall|j: int|
                    0 <= j < i ==> !(#[trigger] self@.outputs[j].1.enabled && is_real_output(
                        self@.outputs[j].1,
                    )),
            decreases self.outputs@.len() - i,
        {
            let s = &self.outputs[i].1;
            assert(self@.outputs[i as int].1 == s@);
            if s.enabled && !s.identity.is_ignored && !s.identity.is_virtual {
                assert(self@.outputs[i as int].1.enabled && is_real_output(self@.outputs[i as int].1));
                return true;
            }
            i += 1;
        }
        false
    }
}

#[derive(Debug, PartialEq)]
pub enum PlanError {
    MissingOutput(String),
    InvalidConfiguration(String),
}

pub ghost enum PlanErrorView {
    MissingOutput(Seq<char>),
    InvalidConfiguration(Seq<char>),
}

impl View for PlanError {
    type V = PlanErrorView;

    open spec fn view(&self) -> PlanErrorView {
        match self {
            PlanError::MissingOutput(o) => PlanErrorView::MissingOutput(o@),
            PlanError::InvalidConfiguration(m) => PlanErrorView::InvalidConfiguration(m@),
        }
    }
}

pub open spec fn plan_error_message(e: PlanErrorView) -> Seq<char> {
    match e {
        PlanErrorView::MissingOutput(o) => "Missing output: "@ + o,
        PlanErrorView::InvalidConfiguration(m) => "Invalid configuration: "@ + m,
    }
}

impl PlanError {
    /// The error's message.
    pub fn to_string(&self) -> (r: String)
        ensures
            r@ == plan_error_message(self@),
    {
        match self {
            PlanError::MissingOutput(o) => {
                let mut s = "Missing output: ".to_owned();
                push_str(&mut s, o.as_str());
                s
            },
            PlanError::InvalidConfiguration(m) => {
                let mut s = "Invalid configuration: ".to_owned();
                push_str(&mut s, m.as_str());
                s
            },
        }
    }
}

pub open spec fn invalid(m: Seq<char>) -> Result<LayoutPlanView, PlanErrorView> {
    Err(PlanErrorView::InvalidConfiguration(m))
}

// ---------------------------------------------------------------------------
// Internal (built-in) outputs
// ---------------------------------------------------------------------------

pub open spec fn or_empty(o: Option<Seq<char>>) -> Seq<char> {
    match o {
        Some(s) => s,
        None => Seq::empty(),
    }
}

/// Whether an output is the built-in display: the configured identity when
/// there is one, else an `eDP`, `LVDS` or `DSI` connector or a description
/// that says `built-in` or `internal display`, compared without ASCII case.
pub open spec fn is_internal_spec(s: OutputStateView, builtin: Option<OutputIdentityView>) -> bool {
    match builtin {
        Some(b) => identities_match_spec(b, s.identity),
        None => {
            let c = or_empty(s.identity.connector);
            let d = or_empty(s.identity.description);
            ||| lower_starts_with(c, "edp"@)
            ||| lower_starts_with(c, "lvds"@)
            ||| lower_starts_with(c, "dsi"@)
            ||| lower_contains(d, "built-in"@)
            ||| lower_contains(d, "internal display"@)
        },
    }
}

pub open spec fn opt_identity_view(b: Option<&OutputIdentity>) -> Option<OutputIdentityView> {
    match b {
        Some(i) => Some(i@),
        None => None,
    }
}

fn opt_chars(o: &Option<String>) -> (r: Vec<char>)
    ensures
        r@ == or_empty(crate::text::opt_view(*o)),
{
    match o {
        Some(s) => chars_of(s.as_str()),
        None => Vec::new(),
    }
}

fn is_internal_output(state: &OutputState, builtin_output: Option<&OutputIdentity>) -> (r: bool)
    ensures
        r == is_internal_spec(state@, opt_identity_view(builtin_output)),
{
    if let Some(b) = builtin_output {
        return identities_match(b, &state.identity);
    }
    let c = opt_chars(&state.identity.connector);
    let d = opt_chars(&state.identity.description);
    chars_lower_starts_with(&c, &chars_of("edp")) || chars_lower_starts_with(&c, &chars_of("lvds"))
        || chars_lower_starts_with(&c, &chars_of("dsi")) || chars_lower_contains(
        &d,
        &chars_of("built-in"),
    ) || chars_lower_contains(&d, &chars_of("internal display"))
}

pub open spec fn has_internal_spec(
    t: Seq<(Seq<char>, OutputStateView)>,
    builtin: Option<OutputIdentityView>,
) -> bool {
    exists|i: int|
        0 <= i < t.len() && is_real_output(#[trigger] t[i].1) && is_internal_spec(t[i].1, builtin)
}

/// Whether the topology has a real output that is the built-in display.
pub fn topology_has_internal_output(topology: &Topology, builtin_output: Option<&OutputIdentity>) -> (r:
    bool)
    ensures
        r == has_internal_spec(topology@, opt_identity_view(builtin_output)),
{
    let ghost t = topology@;
    let mut i: usize = 0;
    while i < topology.outputs.len()
        invariant
            t == topology@,
            i <= t.len(),
            forall|j: int|
                0 <= j < i ==> !(is_real_output(#[trigger] t[j].1) && is_internal_spec(
                    t[j].1,
                    opt_identity_view(builtin_output),
                )),
        decreases t.len() - i,
    {
        let s = &topology.outputs[i].1;
        assert(t[i as int].1 == s@);
        if !s.identity.is_ignored && !s.identity.is_virtual && is_internal_output(s, builtin_output) {
            return true;
        }
        i += 1;
    }
    false
}

// ---------------------------------------------------------------------------
// Recognizing a preset in a live topology
// ---------------------------------------------------------------------------

pub open spec fn enabled_real(o: OutputStateView) -> bool {
    o.enabled && is_real_output(o)
}

/// The outputs that are enabled and real, in order.
pub open spec fn enabled_real_states(s: Seq<(Seq<char>, OutputStateView)>) -> Seq<OutputStateView>
    decreases s.len(),
{
    if s.len() == 0 {
        Seq::empty()
    } else {
        let rest = enabled_real_states(s.drop_last());
        if enabled_real(s.last().1) {
            rest.push(s.last().1)
        } else {
            rest
        }
    }
}

/// The preset that the enabled real outputs are arranged in: a row (same `y`,
/// not all the same `x`), a column (same `x`, not all the same `y`), or a
/// mirror (one of them mirrors another); none for fewer than two outputs.
pub open spec fn detect_preset_spec(t: Seq<(Seq<char>, OutputStateView)>) -> Option<VirtualPreset> {
    let e = enabled_real_states(t);
    let same_y = forall|i: int| 0 <= i < e.len() ==> #[trigger] e[i].position.y == e[0].position.y;
    let same_x = forall|i: int| 0 <= i < e.len() ==> #[trigger] e[i].position.x == e[0].position.x;
    if e.len() < 2 {
        None
    } else if same_y && !same_x {
        Some(VirtualPreset::Horizontal)
    } else if same_x && !same_y {
        Some(VirtualPreset::Vertical)
    } else if exists|i: int| 0 <= i < e.len() && (#[trigger] e[i].mirror_target) is Some {
        Some(VirtualPreset::Mirror)
    } else {
        None
    }
}

/// The preset that the live topology is arranged in, if any.
pub fn detect_preset(topology: &Topology) -> (r: Option<VirtualPreset>)
    ensures
        r == detect_preset_spec(topology@),
{
    let ghost t = topology@;
    let mut enabled: Vec<&OutputState> = Vec::new();
    let mut i: usize = 0;
    while i < topology.outputs.len()
        invariant
            t == topology@,
            i <= t.len(),
            enabled@.len() == enabled_real_states(t.take(i as int)).len(),
            forall|j: int|
                0 <= j < enabled@.len() ==> (#[trigger] enabled@[j])@ == enabled_real_states(
                    t.take(i as int),
                )[j],
        decreases t.len() - i,
    {
        let s = &topology.outputs[i].1;
        assert(t.take(i + 1).drop_last() =~= t.take(i as int));
        assert(t.take(i + 1).last() == t[i as int]);
        assert(t[i as int].1 == s@);
        if s.enabled && !s.identity.is_ignored && !s.identity.is_virtual {
            enabled.push(s);
        }
        i += 1;
    }
    assert(t.take(t.len() as int) =~= t);
    let ghost e = enabled_real_states(t);
    if enabled.len() < 2 {
        return None;
    }
    let x0 = enabled[0].position.x;
    let y0 = enabled[0].position.y;
    let mut same_x = true;
    let mut same_y = true;
    let mut mirrored = false;
    let mut k: usize = 0;
    while k < enabled.len()
        invariant
            e.len() == enabled@.len(),
            forall|j: int| 0 <= j < enabled@.len() ==> (#[trigger] enabled@[j])@ == e[j],
            x0 == e[0].position.x,
            y0 == e[0].position.y,
            k <= e.len(),
            same_x == (forall|j: int| 0 <= j < k ==> #[trigger] e[j].position.x == x0),
            same_y == (forall|j: int| 0 <= j < k ==> #[trigger] e[j].position.y == y0),
            mirrored == (exists|j: int| 0 <= j < k && (#[trigger] e[j].mirror_target) is Some),
        decreases e.len() - k,
    {
        let s = enabled[k];
        assert(e[k as int] == s@);
        assert(e[k as int].position.x == s.position.x);
        assert(e[k as int].position.y == s.position.y);
        assert(e[k as int].mirror_target is Some <==> s.mirror_target is Some);
        if s.position.x != x0 {
            same_x = false;
        }
        if s.position.y != y0 {
            same_y = false;
        }
        if s.mirror_target.is_some() {
            mirrored = true;
        }
        k += 1;
    }
    if same_y && !same_x {
        Some(VirtualPreset::Horizontal)
    } else if same_x && !same_y {
        Some(VirtualPreset::Vertical)
    } else if mirrored {
        Some(VirtualPreset::Mirror)
    } else {
        None
    }
}

/// Each state kept by `enabled_real_states` is an enabled real output of the
/// topology, and each enabled real output of the topology is kept.
proof fn lemma_enabled_real_states_members(t: Seq<(Seq<char>, OutputStateView)>)
    ensures
        forall|k: int|
            0 <= k < enabled_real_states(t).len() ==> enabled_real(
                #[trigger] enabled_real_states(t)[k],
            ) && exists|i: int| 0 <= i < t.len() && t[i].1 == enabled_real_states(t)[k],
        forall|i: int|
            0 <= i < t.len() && enabled_real(#[trigger] t[i].1) ==> exists|k: int|
                0 <= k < enabled_real_states(t).len() && enabled_real_states(t)[k] == t[i].1,
    decreases t.len(),
{
    if t.len() > 0 {
        let p = t.drop_last();
        lemma_enabled_real_states_members(p);
        let e = enabled_real_states(t);
        let ep = enabled_real_states(p);
        assert forall|k: int| 0 <= k < e.len() implies enabled_real(#[trigger] e[k]) && exists|
            i: int,
        | 0 <= i < t.len() && t[i].1 == e[k] by {
            if k < ep.len() {
                assert(e[k] == ep[k]);
                let i = choose|i: int| 0 <= i < p.len() && p[i].1 == ep[k];
                assert(t[i].1 == p[i].1);
            } else {
                assert(t[t.len() - 1].1 == e[k]);
            }
        }
        assert forall|i: int| 0 <= i < t.len() && enabled_real(#[trigger] t[i].1) implies exists|
            k: int,
        | 0 <= k < e.len() && e[k] == t[i].1 by {
            if i < t.len() - 1 {
                assert(p[i].1 == t[i].1);
                let k = choose|k: int| 0 <= k < ep.len() && ep[k] == p[i].1;
                assert(e[k] == ep[k]);
            } else {
                assert(e[ep.len() as int] == t[i].1);
            }
        }
    }
}

/// Enabled real outputs standing in one column: at least two of them, all at
/// one `x`, not all at one `y`, are recognized as the vertical preset.
pub proof fn lemma_column_is_vertical(t: Seq<(Seq<char>, OutputStateView)>, a: int, b: int)
    requires
        0 <= a < t.len(),
        0 <= b < t.len(),
        enabled_real(t[a].1),
        enabled_real(t[b].1),
        t[a].1.position.y != t[b].1.position.y,
        forall|i: int, j: int|
            0 <= i < t.len() && 0 <= j < t.len() && enabled_real(#[trigger] t[i].1) && enabled_real(
                #[trigger] t[j].1,
            ) ==> t[i].1.position.x == t[j].1.position.x,
    ensures
        detect_preset_spec(t) == Some(VirtualPreset::Vertical),
{
    lemma_enabled_real_states_members(t);
    let e = enabled_real_states(t);
    let ka = choose|k: int| 0 <= k < e.len() && e[k] == t[a].1;
    let kb = choose|k: int| 0 <= k < e.len() && e[k] == t[b].1;
    assert(ka != kb);
    assert(e.len() >= 2);
    let i0 = choose|i: int| 0 <= i < t.len() && t[i].1 == e[0];
    assert(enabled_real(e[0]));
    assert forall|k: int| 0 <= k < e.len() implies #[trigger] e[k].position.x == e[0].position.x by {
        let ik = choose|i: int| 0 <= i < t.len() && t[i].1 == e[k];
        assert(enabled_real(e[k]));
        assert(enabled_real(t[ik].1) && enabled_real(t[i0].1));
    }
    assert(e[ka].position.y != e[0].position.y || e[kb].position.y != e[0].position.y);
}

/// Enabled real outputs standing in one row: at least two of them, all at one
/// `y`, not all at one `x`, are recognized as the horizontal preset.
pub proof fn lemma_row_is_horizontal(t: Seq<(Seq<char>, OutputStateView)>, a: int, b: int)
    requires
        0 <= a < t.len(),
        0 <= b < t.len(),
        enabled_real(t[a].1),
        enabled_real(t[b].1),
        t[a].1.position.x != t[b].1.position.x,
        forall|i: int, j: int|
            0 <= i < t.len() && 0 <= j < t.len() && enabled_real(#[trigger] t[i].1) && enabled_real(
                #[trigger] t[j].1,
            ) ==> t[i].1.position.y == t[j].1.position.y,
    ensures
        detect_preset_spec(t) == Some(VirtualPreset::Horizontal),
{
    lemma_enabled_real_states_members(t);
    let e = enabled_real_states(t);
    let ka = choose|k: int| 0 <= k < e.len() && e[k] == t[a].1;
    let kb = choose|k: int| 0 <= k < e.len() && e[k] == t[b].1;
    assert(ka != kb);
    assert(e.len() >= 2);
    let i0 = choose|i: int| 0 <= i < t.len() && t[i].1 == e[0];
    assert(enabled_real(e[0]));
    assert forall|k: int| 0 <= k < e.len() implies #[trigger] e[k].position.y == e[0].position.y by {
        let ik = choose|i: int| 0 <= i < t.len() && t[i].1 == e[k];
        assert(enabled_real(e[k]));
        assert(enabled_real(t[ik].1) && enabled_real(t[i0].1));
    }
    assert(e[ka].position.x != e[0].position.x || e[kb].position.x != e[0].position.x);
}

// ---------------------------------------------------------------------------
// Plans from a matched profile
// ---------------------------------------------------------------------------

/// The state planned for one binding: the layout entry's state with the live
/// output's identity; the layout entry alone, or the live output alone, where
/// the other is missing; nothing where both are.
pub open spec fn bound_state(
    p: crate::profile::ProfileView,
    b: (Seq<char>, Seq<char>),
    t: Seq<(Seq<char>, OutputStateView)>,
) -> Option<OutputStateView> {
    match (lookup(p.layout, b.1), lookup(t, b.0)) {
        (Some(cfg), Some(out)) => Some(
            OutputStateView {
                identity: out.identity,
                enabled: cfg.state.enabled,
                mode: cfg.state.mode,
                available_modes: cfg.state.available_modes,
                position: cfg.state.position,
                scale: cfg.state.scale,
                scaled_resolution: cfg.state.scaled_resolution,
                transform: cfg.state.transform,
                mirror_target: cfg.state.mirror_target,
                backend_data: cfg.state.backend_data,
            },
        ),
        (Some(cfg), None) => Some(cfg.state),
        (None, Some(out)) => Some(out),
        (None, None) => None,
    }
}

/// The plan for the bindings `bs`, taken in order; the error is the live
/// output name of the first binding with neither a layout entry nor a live
/// output.
pub open spec fn profile_plan_spec(
    p: crate::profile::ProfileView,
    bs: Seq<(Seq<char>, Seq<char>)>,
    t: Seq<(Seq<char>, OutputStateView)>,
) -> Result<Seq<(Seq<char>, OutputStateView)>, Seq<char>>
    decreases bs.len(),
{
    if bs.len() == 0 {
        Ok(Seq::empty())
    } else {
        match profile_plan_spec(p, bs.drop_last(), t) {
            Err(e) => Err(e),
            Ok(acc) => match bound_state(p, bs.last(), t) {
                None => Err(bs.last().0),
                Some(s) => Ok(assoc_set(acc, bs.last().0, s)),
            },
        }
    }
}

proof fn lemma_view_names_entries(s: Seq<(String, OutputState)>)
    ensures
        view_names(entry_views(s)) == names_of(s),
{
    assert(view_names(entry_views(s)) =~= names_of(s));
}

proof fn lemma_profile_plan_error_persists(
    p: crate::profile::ProfileView,
    bs: Seq<(Seq<char>, Seq<char>)>,
    t: Seq<(Seq<char>, OutputStateView)>,
    n: int,
)
    requires
        0 <= n <= bs.len(),
        profile_plan_spec(p, bs.take(n), t) is Err,
    ensures
        profile_plan_spec(p, bs, t) == profile_plan_spec(p, bs.take(n), t),
    decreases bs.len() - n,
{
    if n < bs.len() {
        assert(bs.take(n + 1).drop_last() =~= bs.take(n));
        lemma_profile_plan_error_persists(p, bs, t, n + 1);
    } else {
        assert(bs.take(n) =~= bs);
    }
}

/// `s` is the saved state `cfg.state` in every field but the identity, which is
/// the live output's.
pub open spec fn saved_state_on_live_output(
    s: OutputStateView,
    cfg: OutputConfigView,
    out: OutputStateView,
) -> bool {
    &&& s.identity == out.identity
    &&& s.enabled == cfg.state.enabled
    &&& s.mode == cfg.state.mode
    &&& s.available_modes == cfg.state.available_modes
    &&& s.position == cfg.state.position
    &&& s.scale == cfg.state.scale
    &&& s.scaled_resolution == cfg.state.scaled_resolution
    &&& s.transform == cfg.state.transform
    &&& s.mirror_target == cfg.state.mirror_target
    &&& s.backend_data == cfg.state.backend_data
}

proof fn lemma_plan_last_step(
    p: crate::profile::ProfileView,
    bs: Seq<(Seq<char>, Seq<char>)>,
    t: Seq<(Seq<char>, OutputStateView)>,
)
    requires
        bs.len() > 0,
        profile_plan_spec(p, bs, t) is Ok,
    ensures
        profile_plan_spec(p, bs.drop_last(), t) is Ok,
        bound_state(p, bs.last(), t) is Some,
        profile_plan_spec(p, bs, t)->Ok_0 == assoc_set(
            profile_plan_spec(p, bs.drop_last(), t)->Ok_0,
            bs.last().0,
            bound_state(p, bs.last(), t)->0,
        ),
{
}

proof fn lemma_bound_state_saved(
    p: crate::profile::ProfileView,
    b: (Seq<char>, Seq<char>),
    t: Seq<(Seq<char>, OutputStateView)>,
    cfg: OutputConfigView,
    out: OutputStateView,
)
    requires
        lookup(p.layout, b.1) == Some(cfg),
        lookup(t, b.0) == Some(out),
    ensures
        bound_state(p, b, t) is Some,
        saved_state_on_live_output(bound_state(p, b, t)->0, cfg, out),
{
}

/// Where a binding names both a saved layout entry and a live output, and no
/// later binding targets the same live output, the plan gives that output the
/// saved state in every field but the identity, which is the live output's.
#[verifier::spinoff_prover]
#[verifier::rlimit(100)]
pub proof fn lemma_planned_output_keeps_saved_state(
    p: crate::profile::ProfileView,
    bs: Seq<(Seq<char>, Seq<char>)>,
    t: Seq<(Seq<char>, OutputStateView)>,
    i: int,
    cfg: OutputConfigView,
    out: OutputStateView,
)
    requires
        0 <= i < bs.len(),
        forall|j: int| i < j < bs.len() ==> (#[trigger] bs[j]).0 != bs[i].0,
        profile_plan_spec(p, bs, t) is Ok,
        lookup(p.layout, bs[i].1) == Some(cfg),
        lookup(t, bs[i].0) == Some(out),
    ensures
        lookup(profile_plan_spec(p, bs, t)->Ok_0, bs[i].0) is Some,
        saved_state_on_live_output(
            lookup(profile_plan_spec(p, bs, t)->Ok_0, bs[i].0)->0,
            cfg,
            out,
        ),
    decreases bs.len(),
{
    lemma_plan_last_step(p, bs, t);
    let q = bs.drop_last();
    let acc = profile_plan_spec(p, q, t)->Ok_0;
    let s = bound_state(p, bs.last(), t)->0;
    crate::assoc::lemma_lookup_set(acc, bs.last().0, s, bs[i].0);
    if i == bs.len() - 1 {
        lemma_bound_state_saved(p, bs[i], t, cfg, out);
    } else {
        assert(q[i] == bs[i]);
        assert(bs[bs.len() - 1].0 != bs[i].0);
        assert forall|j: int| i < j < q.len() implies (#[trigger] q[j]).0 != q[i].0 by {
            assert(q[j] == bs[j]);
        }
        lemma_planned_output_keeps_saved_state(p, q, t, i, cfg, out);
    }
}

pub struct Planner;

impl Planner {
    /// Builds the plan that a matched profile gives the topology.
    pub fn plan_from_profile(
        profile: &Profile,
        matched_outputs: &[MatchedOutputBinding],
        topology: &Topology,
    ) -> (r: Result<LayoutPlan, PlanError>)
        requires
            profile.wf(),
        ensures
            match r {
                Ok(plan) => {
                    &&& profile_plan_spec(profile@, binding_views(matched_outputs@), topology@)
                        == Ok::<Seq<(Seq<char>, OutputStateView)>, Seq<char>>(plan@.outputs)
                    &&& plan@.preset_used is None
                    &&& plan.wf()
                },
                Err(e) => profile_plan_spec(profile@, binding_views(matched_outputs@), topology@)
                    == Err::<Seq<(Seq<char>, OutputStateView)>, Seq<char>>(
                    match e@ {
                        PlanErrorView::MissingOutput(n) => n,
                        PlanErrorView::InvalidConfiguration(m) => "\n"@ + m,
                    },
                ) && e@ is MissingOutput,
            },
    {
        let ghost bs = binding_views(matched_outputs@);
        let mut planned = Topology::new();
        assert(planned@ =~= Seq::<(Seq<char>, OutputStateView)>::empty());
        assert(bs.take(0).len() == 0);
        let mut i: usize = 0;
        while i < matched_outputs.len()
            invariant
                bs == binding_views(matched_outputs@),
                i <= matched_outputs@.len(),
                planned.wf(),
                profile.wf(),
                profile_plan_spec(profile@, bs.take(i as int), topology@) == Ok::<
                    Seq<(Seq<char>, OutputStateView)>,
                    Seq<char>,
                >(planned@),
            decreases matched_outputs@.len() - i,
        {
            let binding = &matched_outputs[i];
            let ghost b = bs[i as int];
            assert(b == (binding.topology_name@, binding.layout_name@));
            assert(bs.take(i + 1).drop_last() =~= bs.take(i as int));
            assert(bs.take(i + 1).last() == b);
            let output = topology.get(binding.topology_name.as_str());
            proof {
                assert(view_names(layout_views(profile.layout@)) =~= names_of(profile.layout@));
            }
            let cfg_index = crate::assoc::find_key(&profile.layout, binding.layout_name.as_str());
            let state = match (cfg_index, output) {
                (Some(k), Some(out)) => {
                    let mut st = profile.layout[k].1.state.clone();
                    st.identity = out.identity.clone();
                    st
                },
                (Some(k), None) => profile.layout[k].1.state.clone(),
                (None, Some(out)) => out.clone(),
                (None, None) => {
                    proof {
                        lemma_profile_plan_error_persists(profile@, bs, topology@, i + 1);
                    }
                    return Err(PlanError::MissingOutput(binding.topology_name.clone()));
                },
            };
            assert(bound_state(profile@, b, topology@) == Some(state@));
            proof {
                lemma_view_names_entries(planned.outputs@);
            }
            planned.insert(binding.topology_name.clone(), state);
            i += 1;
        }
        assert(bs.take(matched_outputs@.len() as int) =~= bs);
        Ok(LayoutPlan { outputs: planned.outputs, preset_used: None })
    }

    /// Builds the plan that a named preset gives the topology.
    pub fn plan_from_preset(
        preset: VirtualPreset,
        topology: &Topology,
        builtin_output: Option<&OutputIdentity>,
        primary_hint: Option<&str>,
    ) -> (r: Result<LayoutPlan, PlanError>)
        requires
            topology.wf(),
            preset_fits(preset, topology@, opt_identity_view(builtin_output), hint_view(primary_hint)),
        ensures
            plan_result_view(r) == preset_spec(
                preset,
                topology@,
                opt_identity_view(builtin_output),
                hint_view(primary_hint),
            ),
            r is Ok ==> r->Ok_0.wf(),
    {
        presets::plan_from_preset(preset, topology, builtin_output, primary_hint)
    }
}

} // verus!
