//! The presets that turn a topology into a plan without a saved profile:
//! which outputs stay on, where they are placed, and which mode they use.
use vstd::prelude::*;

use super::modes::{
    best_mode, best_mode_spec, contains_mode, is_max_in, is_min_in, lemma_max_in, lemma_min_in,
    max_in, max_mode, min_in, min_mode, mode_lt, mode_shared, output_modes, output_modes_spec,
    shared_modes, shared_pred,
};
use super::order::{available_outputs, available_spec, reversed, rotate_to_hint, with_hint, Entries};
use super::{
    enabled_real, has_internal_spec, invalid, is_internal_output, is_internal_spec,
    opt_identity_view, topology_has_internal_output, LayoutPlan, LayoutPlanView, PlanError,
    PlanErrorView,
};
use crate::assoc::{distinct_names, names_of, view_names};
use crate::model::identity::OutputIdentityView;
use crate::model::{
    entry_views, is_real_output, Mode, OutputIdentity, OutputState, OutputStateView, Position,
    Topology, VirtualPreset,
};
use crate::text::opt_view;

verus! {

// ---------------------------------------------------------------------------
// Placing one output
// ---------------------------------------------------------------------------

pub open spec fn origin() -> Position {
    Position { x: 0, y: 0 }
}

/// `s` with the given on/off state, position, mirror target and mode.
pub open spec fn placed(
    s: OutputStateView,
    enabled: bool,
    position: Position,
    mirror_target: Option<Seq<char>>,
    mode: Option<Mode>,
) -> OutputStateView {
    OutputStateView {
        identity: s.identity,
        enabled,
        mode,
        available_modes: s.available_modes,
        position,
        scale: s.scale,
        scaled_resolution: s.scaled_resolution,
        transform: s.transform,
        mirror_target,
        backend_data: s.backend_data,
    }
}

fn placed_state(
    s: &OutputState,
    enabled: bool,
    position: Position,
    mirror_target: Option<String>,
    mode: Option<Mode>,
) -> (r: OutputState)
    ensures
        r@ == placed(s@, enabled, position, opt_view(mirror_target), mode),
{
    let mut r = s.clone();
    r.enabled = enabled;
    r.position = position;
    r.mirror_target = mirror_target;
    r.mode = mode;
    r
}

pub open spec fn plan_view(outputs: Entries, preset: VirtualPreset) -> Result<LayoutPlanView, PlanErrorView> {
    Ok(LayoutPlanView { outputs, preset_used: Some(preset) })
}

pub open spec fn plan_result_view(r: Result<LayoutPlan, PlanError>) -> Result<LayoutPlanView, PlanErrorView> {
    match r {
        Ok(p) => Ok(p@),
        Err(e) => Err(e@),
    }
}

fn invalid_configuration(m: &str) -> (r: Result<LayoutPlan, PlanError>)
    ensures
        plan_result_view(r) == invalid(m@),
{
    Err(PlanError::InvalidConfiguration(m.to_owned()))
}

proof fn lemma_same_names(a: Entries, b: Entries)
    requires
        a.len() == b.len(),
        forall|k: int| 0 <= k < a.len() ==> (#[trigger] a[k]).0 == b[k].0,
        distinct_names(view_names(b)),
    ensures
        distinct_names(view_names(a)),
{
    assert(view_names(a) =~= view_names(b));
}

// ---------------------------------------------------------------------------
// off, external, builtin
// ---------------------------------------------------------------------------

/// `off`: only the built-in display stays on (all off without one), every
/// output at the origin and mirroring nothing.
pub open spec fn off_spec(t: Entries, b: Option<OutputIdentityView>) -> Result<LayoutPlanView, PlanErrorView> {
    if t.len() == 0 {
        invalid("No outputs to disable"@)
    } else {
        plan_view(
            t.map_values(
                |e: (Seq<char>, OutputStateView)|
                    (
                        e.0,
                        placed(
                            e.1,
                            has_internal_spec(t, b) && is_internal_spec(e.1, b),
                            origin(),
                            None,
                            e.1.mode,
                        ),
                    ),
            ),
            VirtualPreset::Off,
        )
    }
}

fn plan_off(topology: &Topology, builtin_output: Option<&OutputIdentity>) -> (r: Result<
    LayoutPlan,
    PlanError,
>)
    requires
        topology.wf(),
    ensures
        plan_result_view(r) == off_spec(topology@, opt_identity_view(builtin_output)),
        r is Ok ==> r->Ok_0.wf(),
{
    let ghost t = topology@;
    let ghost b = opt_identity_view(builtin_output);
    if topology.outputs.len() == 0 {
        return invalid_configuration("No outputs to disable");
    }
    let has = topology_has_internal_output(topology, builtin_output);
    let mut outputs: Vec<(String, OutputState)> = Vec::new();
    let mut i: usize = 0;
    while i < topology.outputs.len()
        invariant
            t == topology@,
            b == opt_identity_view(builtin_output),
            has == has_internal_spec(t, b),
            i <= t.len(),
            outputs@.len() == i,
            forall|k: int|
                0 <= k < i ==> (#[trigger] outputs@[k]).0@ == t[k].0 && outputs@[k].1@ == placed(
                    t[k].1,
                    has && is_internal_spec(t[k].1, b),
                    origin(),
                    None,
                    t[k].1.mode,
                ),
        decreases t.len() - i,
    {
        let e = &topology.outputs[i];
        assert(t[i as int] == (e.0@, e.1@));
        let en = has && is_internal_output(&e.1, builtin_output);
        let st = placed_state(&e.1, en, Position { x: 0, y: 0 }, None, e.1.mode);
        outputs.push((e.0.clone(), st));
        i += 1;
    }
    let ghost expected = t.map_values(
        |e: (Seq<char>, OutputStateView)|
            (e.0, placed(e.1, has_internal_spec(t, b) && is_internal_spec(e.1, b), origin(), None, e.1.mode)),
    );
    assert(entry_views(outputs@) =~= expected);
    proof {
        assert(view_names(t) =~= names_of(topology.outputs@));
        lemma_same_names(expected, t);
        assert(view_names(entry_views(outputs@)) =~= names_of(outputs@));
    }
    Ok(LayoutPlan { outputs, preset_used: Some(VirtualPreset::Off) })
}

pub open spec fn has_external_spec(t: Entries, b: Option<OutputIdentityView>) -> bool {
    exists|i: int|
        0 <= i < t.len() && is_real_output(#[trigger] t[i].1) && !is_internal_spec(t[i].1, b)
}

/// Whether `external` keeps an output on: virtual and ignored outputs as
/// they are; else the outputs that are not built in, or the built-in ones
/// where there is no other.
pub open spec fn external_enable(s: OutputStateView, has_external: bool, b: Option<OutputIdentityView>) -> bool {
    if !is_real_output(s) {
        s.enabled
    } else if has_external {
        !is_internal_spec(s, b)
    } else {
        is_internal_spec(s, b)
    }
}

pub open spec fn external_stage_state(s: OutputStateView, has_external: bool, b: Option<OutputIdentityView>) -> OutputStateView {
    let en = external_enable(s, has_external, b);
    placed(
        s,
        en,
        if en {
            s.position
        } else {
            origin()
        },
        None,
        s.mode,
    )
}

/// The outputs with `external`'s on/off choice made, before they are moved.
pub open spec fn external_stage(t: Entries, b: Option<OutputIdentityView>) -> Entries {
    t.map_values(
        |e: (Seq<char>, OutputStateView)| (e.0, external_stage_state(e.1, has_external_spec(t, b), b)),
    )
}

/// The least `x` of an enabled real output (`i32::MAX` for none).
pub open spec fn min_enabled_x(s: Entries) -> int
    decreases s.len(),
{
    if s.len() == 0 {
        i32::MAX as int
    } else {
        let r = min_enabled_x(s.drop_last());
        if enabled_real(s.last().1) && s.last().1.position.x < r {
            s.last().1.position.x as int
        } else {
            r
        }
    }
}

/// The least `y` of an enabled real output (`i32::MAX` for none).
pub open spec fn min_enabled_y(s: Entries) -> int
    decreases s.len(),
{
    if s.len() == 0 {
        i32::MAX as int
    } else {
        let r = min_enabled_y(s.drop_last());
        if enabled_real(s.last().1) && s.last().1.position.y < r {
            s.last().1.position.y as int
        } else {
            r
        }
    }
}

pub open spec fn rebased(s: OutputStateView, mx: int, my: int) -> OutputStateView {
    if enabled_real(s) {
        placed(
            s,
            true,
            Position { x: (s.position.x - mx) as i32, y: (s.position.y - my) as i32 },
            None,
            s.mode,
        )
    } else {
        s
    }
}

/// `external`: the outputs that are not built in stay on (the built-in ones
/// where there is no other), moved together so that the enabled real outputs
/// start at the origin; virtual and ignored outputs keep their state.
pub open spec fn external_spec(t: Entries, b: Option<OutputIdentityView>) -> Result<LayoutPlanView, PlanErrorView> {
    if t.len() == 0 {
        invalid("No outputs to configure"@)
    } else {
        let st = external_stage(t, b);
        let mx = min_enabled_x(st);
        let my = min_enabled_y(st);
        plan_view(
            st.map_values(|e: (Seq<char>, OutputStateView)| (e.0, rebased(e.1, mx, my))),
            VirtualPreset::External,
        )
    }
}

/// Moving the enabled real outputs stays within `i32`: no two of them are
/// further apart than `i32::MAX` on either axis.
pub open spec fn external_fits(t: Entries, b: Option<OutputIdentityView>) -> bool {
    let st = external_stage(t, b);
    forall|i: int, j: int|
        0 <= i < st.len() && 0 <= j < st.len() && enabled_real(#[trigger] st[i].1) && enabled_real(
            #[trigger] st[j].1,
        ) ==> st[i].1.position.x - st[j].1.position.x <= i32::MAX && st[i].1.position.y
            - st[j].1.position.y <= i32::MAX
}

proof fn lemma_min_enabled(s: Entries)
    ensures
        forall|i: int|
            0 <= i < s.len() && enabled_real(#[trigger] s[i].1) ==> min_enabled_x(s)
                <= s[i].1.position.x && min_enabled_y(s) <= s[i].1.position.y,
        min_enabled_x(s) == i32::MAX || exists|j: int|
            0 <= j < s.len() && enabled_real(#[trigger] s[j].1) && s[j].1.position.x
                == min_enabled_x(s),
        min_enabled_y(s) == i32::MAX || exists|j: int|
            0 <= j < s.len() && enabled_real(#[trigger] s[j].1) && s[j].1.position.y
                == min_enabled_y(s),
    decreases s.len(),
{
    if s.len() > 0 {
        let p = s.drop_last();
        lemma_min_enabled(p);
        assert forall|i: int| 0 <= i < p.len() implies #[trigger] s[i] == p[i] by {}
        let n = s.len() - 1;
        if min_enabled_x(p) != i32::MAX {
            let j = choose|j: int|
                0 <= j < p.len() && enabled_real(#[trigger] p[j].1) && p[j].1.position.x
                    == min_enabled_x(p);
            assert(s[j] == p[j]);
        }
        if min_enabled_y(p) != i32::MAX {
            let j = choose|j: int|
                0 <= j < p.len() && enabled_real(#[trigger] p[j].1) && p[j].1.position.y
                    == min_enabled_y(p);
            assert(s[j] == p[j]);
        }
        assert(s[n] == s.last());
    }
}

fn plan_external(topology: &Topology, builtin_output: Option<&OutputIdentity>) -> (r: Result<
    LayoutPlan,
    PlanError,
>)
    requires
        topology.wf(),
        external_fits(topology@, opt_identity_view(builtin_output)),
    ensures
        plan_result_view(r) == external_spec(topology@, opt_identity_view(builtin_output)),
        r is Ok ==> r->Ok_0.wf(),
{
    let ghost t = topology@;
    let ghost b = opt_identity_view(builtin_output);
    if topology.outputs.len() == 0 {
        return invalid_configuration("No outputs to configure");
    }
    // Whether some real output is not built in.
    let mut has_external = false;
    let mut i: usize = 0;
    while i < topology.outputs.len()
        invariant
            t == topology@,
            b == opt_identity_view(builtin_output),
            i <= t.len(),
            has_external == exists|j: int|
                0 <= j < i && is_real_output(#[trigger] t[j].1) && !is_internal_spec(t[j].1, b),
        decreases t.len() - i,
    {
        let s = &topology.outputs[i].1;
        assert(t[i as int].1 == s@);
        if !s.identity.is_ignored && !s.identity.is_virtual && !is_internal_output(s, builtin_output) {
            has_external = true;
        }
        i += 1;
    }
    assert(has_external == has_external_spec(t, b));
    let ghost st = external_stage(t, b);
    // The on/off choice, and the least position of what stays on.
    let mut staged: Vec<(String, OutputState)> = Vec::new();
    let mut mx: i32 = i32::MAX;
    let mut my: i32 = i32::MAX;
    let mut i: usize = 0;
    while i < topology.outputs.len()
        invariant
            t == topology@,
            b == opt_identity_view(builtin_output),
            has_external == has_external_spec(t, b),
            st == external_stage(t, b),
            i <= t.len(),
            staged@.len() == i,
            entry_views(staged@) == st.take(i as int),
            mx == min_enabled_x(st.take(i as int)),
            my == min_enabled_y(st.take(i as int)),
        decreases t.len() - i,
    {
        let e = &topology.outputs[i];
        assert(t[i as int] == (e.0@, e.1@));
        let s = &e.1;
        let en = if s.identity.is_ignored || s.identity.is_virtual {
            s.enabled
        } else if has_external {
            !is_internal_output(s, builtin_output)
        } else {
            is_internal_output(s, builtin_output)
        };
        let position = if en {
            s.position
        } else {
            Position { x: 0, y: 0 }
        };
        let ns = placed_state(s, en, position, None, s.mode);
        assert(ns@ == st[i as int].1);
        if en && !s.identity.is_ignored && !s.identity.is_virtual {
            if ns.position.x < mx {
                mx = ns.position.x;
            }
            if ns.position.y < my {
                my = ns.position.y;
            }
        }
        staged.push((e.0.clone(), ns));
        proof {
            assert(st.take(i + 1).drop_last() =~= st.take(i as int));
            assert(entry_views(staged@) =~= st.take(i + 1));
        }
        i += 1;
    }
    assert(st.take(t.len() as int) =~= st);
    proof {
        lemma_min_enabled(st);
    }
    let mut outputs: Vec<(String, OutputState)> = Vec::new();
    let mut i: usize = 0;
    while i < staged.len()
        invariant
            st == external_stage(t, b),
            entry_views(staged@) == st,
            st.len() == t.len(),
            external_fits(t, b),
            mx == min_enabled_x(st),
            my == min_enabled_y(st),
            forall|k: int|
                0 <= k < st.len() && enabled_real(#[trigger] st[k].1) ==> mx <= st[k].1.position.x
                    && my <= st[k].1.position.y,
            mx == i32::MAX || exists|j: int|
                0 <= j < st.len() && enabled_real(#[trigger] st[j].1) && st[j].1.position.x == mx,
            my == i32::MAX || exists|j: int|
                0 <= j < st.len() && enabled_real(#[trigger] st[j].1) && st[j].1.position.y == my,
            i <= st.len(),
            outputs@.len() == i,
            forall|k: int|
                0 <= k < i ==> (#[trigger] outputs@[k]).0@ == st[k].0 && outputs@[k].1@ == rebased(
                    st[k].1,
                    mx as int,
                    my as int,
                ),
        decreases st.len() - i,
    {
        let e = &staged[i];
        assert(st[i as int] == (e.0@, e.1@));
        let s = &e.1;
        if s.enabled && !s.identity.is_ignored && !s.identity.is_virtual {
            proof {
                assert(enabled_real(st[i as int].1));
                if mx != i32::MAX {
                    let j = choose|j: int|
                        0 <= j < st.len() && enabled_real(#[trigger] st[j].1) && st[j].1.position.x
                            == mx;
                    assert(st[i as int].1.position.x - st[j].1.position.x <= i32::MAX);
                }
                if my != i32::MAX {
                    let j = choose|j: int|
                        0 <= j < st.len() && enabled_real(#[trigger] st[j].1) && st[j].1.position.y
                            == my;
                    assert(st[i as int].1.position.y - st[j].1.position.y <= i32::MAX);
                }
            }
            let position = Position { x: s.position.x - mx, y: s.position.y - my };
            let ns = placed_state(s, true, position, None, s.mode);
            outputs.push((e.0.clone(), ns));
        } else {
            outputs.push((e.0.clone(), s.clone()));
        }
        i += 1;
    }
    let ghost expected = st.map_values(
        |e: (Seq<char>, OutputStateView)| (e.0, rebased(e.1, mx as int, my as int)),
    );
    assert(entry_views(outputs@) =~= expected);
    proof {
        assert(view_names(t) =~= names_of(topology.outputs@));
        lemma_same_names(st, t);
        lemma_same_names(expected, st);
        assert(view_names(entry_views(outputs@)) =~= names_of(outputs@));
    }
    Ok(LayoutPlan { outputs, preset_used: Some(VirtualPreset::External) })
}

/// `builtin`: only the built-in display stays on, at the origin; virtual and
/// ignored outputs keep their state. An error without a built-in display.
pub open spec fn builtin_spec(t: Entries, b: Option<OutputIdentityView>) -> Result<LayoutPlanView, PlanErrorView> {
    if t.len() == 0 {
        invalid("No outputs to configure"@)
    } else if !has_internal_spec(t, b) {
        invalid("No built-in display is available for the `builtin` preset"@)
    } else {
        plan_view(
            t.map_values(
                |e: (Seq<char>, OutputStateView)|
                    (
                        e.0,
                        if is_real_output(e.1) {
                            placed(e.1, is_internal_spec(e.1, b), origin(), None, e.1.mode)
                        } else {
                            e.1
                        },
                    ),
            ),
            VirtualPreset::Builtin,
        )
    }
}

fn plan_builtin(topology: &Topology, builtin_output: Option<&OutputIdentity>) -> (r: Result<
    LayoutPlan,
    PlanError,
>)
    requires
        topology.wf(),
    ensures
        plan_result_view(r) == builtin_spec(topology@, opt_identity_view(builtin_output)),
        r is Ok ==> r->Ok_0.wf(),
{
    let ghost t = topology@;
    let ghost b = opt_identity_view(builtin_output);
    if topology.outputs.len() == 0 {
        return invalid_configuration("No outputs to configure");
    }
    if !topology_has_internal_output(topology, builtin_output) {
        return invalid_configuration("No built-in display is available for the `builtin` preset");
    }
    let mut outputs: Vec<(String, OutputState)> = Vec::new();
    let mut i: usize = 0;
    while i < topology.outputs.len()
        invariant
            t == topology@,
            b == opt_identity_view(builtin_output),
            i <= t.len(),
            outputs@.len() == i,
            forall|k: int|
                0 <= k < i ==> (#[trigger] outputs@[k]).0@ == t[k].0 && outputs@[k].1@ == (
                if is_real_output(t[k].1) {
                    placed(t[k].1, is_internal_spec(t[k].1, b), origin(), None, t[k].1.mode)
                } else {
                    t[k].1
                }),
        decreases t.len() - i,
    {
        let e = &topology.outputs[i];
        assert(t[i as int] == (e.0@, e.1@));
        let s = &e.1;
        if !s.identity.is_ignored && !s.identity.is_virtual {
            let en = is_internal_output(s, builtin_output);
            let ns = placed_state(s, en, Position { x: 0, y: 0 }, None, s.mode);
            outputs.push((e.0.clone(), ns));
        } else {
            outputs.push((e.0.clone(), s.clone()));
        }
        i += 1;
    }
    let ghost expected = t.map_values(
        |e: (Seq<char>, OutputStateView)|
            (
                e.0,
                if is_real_output(e.1) {
                    placed(e.1, is_internal_spec(e.1, b), origin(), None, e.1.mode)
                } else {
                    e.1
                },
            ),
    );
    assert(entry_views(outputs@) =~= expected);
    proof {
        assert(view_names(t) =~= names_of(topology.outputs@));
        lemma_same_names(expected, t);
        assert(view_names(entry_views(outputs@)) =~= names_of(outputs@));
    }
    Ok(LayoutPlan { outputs, preset_used: Some(VirtualPreset::Builtin) })
}

// ---------------------------------------------------------------------------
// horizontal, vertical and their reverses
// ---------------------------------------------------------------------------

pub open spec fn hint_view(h: Option<&str>) -> Option<Seq<char>> {
    match h {
        Some(s) => Some(s@),
        None => None,
    }
}

pub open spec fn is_linear(p: VirtualPreset) -> bool {
    ||| p == VirtualPreset::Horizontal
    ||| p == VirtualPreset::HorizontalReverse
    ||| p == VirtualPreset::Vertical
    ||| p == VirtualPreset::VerticalReverse
}

pub open spec fn is_horizontal(p: VirtualPreset) -> bool {
    p == VirtualPreset::Horizontal || p == VirtualPreset::HorizontalReverse
}

pub open spec fn is_reverse_spec(p: VirtualPreset) -> bool {
    p == VirtualPreset::HorizontalReverse || p == VirtualPreset::VerticalReverse
}

/// The real outputs by name, the primary first, reversed for the reverse
/// presets.
pub open spec fn linear_order(t: Entries, p: VirtualPreset, hint: Option<Seq<char>>) -> Entries {
    let l = with_hint(available_spec(t), hint);
    if is_reverse_spec(p) {
        l.reverse()
    } else {
        l
    }
}

pub open spec fn clamp_i32(v: u32) -> int {
    if v <= i32::MAX {
        v as int
    } else {
        i32::MAX as int
    }
}

/// The width the row advances by (an output without a mode takes none).
pub open spec fn clamped_width(s: OutputStateView) -> int {
    match s.mode {
        Some(m) => clamp_i32(m.width),
        None => 0,
    }
}

pub open spec fn clamped_height(s: OutputStateView) -> int {
    match s.mode {
        Some(m) => clamp_i32(m.height),
        None => 0,
    }
}

/// The width that counts toward the widest output: only one that fits `i32`.
pub open spec fn fit_width(s: OutputStateView) -> int {
    match s.mode {
        Some(m) => if m.width <= i32::MAX {
            m.width as int
        } else {
            0
        },
        None => 0,
    }
}

pub open spec fn max_fit_width(l: Entries) -> int
    decreases l.len(),
{
    if l.len() == 0 {
        0
    } else {
        let r = max_fit_width(l.drop_last());
        if fit_width(l.last().1) > r {
            fit_width(l.last().1)
        } else {
            r
        }
    }
}

/// The widths of the outputs before the `k`-th, summed.
pub open spec fn width_before(l: Entries, k: int) -> int
    decreases k,
{
    if k <= 0 {
        0
    } else {
        width_before(l, k - 1) + clamped_width(l[k - 1].1)
    }
}

pub open spec fn height_before(l: Entries, k: int) -> int
    decreases k,
{
    if k <= 0 {
        0
    } else {
        height_before(l, k - 1) + clamped_height(l[k - 1].1)
    }
}

/// Half of `d`, rounded toward zero (integer division in Rust).
pub open spec fn half_toward_zero(d: int) -> int {
    if d >= 0 {
        d / 2
    } else {
        -((-d) / 2)
    }
}

/// A row places each output right after the previous one, at `y = 0`; a
/// column places each below the previous one, centred on the widest.
pub open spec fn linear_position(l: Entries, k: int, horizontal: bool) -> Position {
    if horizontal {
        Position { x: width_before(l, k) as i32, y: 0 }
    } else {
        Position {
            x: half_toward_zero(max_fit_width(l) - clamped_width(l[k].1)) as i32,
            y: height_before(l, k) as i32,
        }
    }
}

pub open spec fn linear_spec(t: Entries, p: VirtualPreset, hint: Option<Seq<char>>) -> Result<
    LayoutPlanView,
    PlanErrorView,
> {
    let l = linear_order(t, p, hint);
    if l.len() == 0 {
        invalid("No outputs to arrange"@)
    } else {
        plan_view(
            Seq::new(
                l.len(),
                |k: int|
                    (
                        l[k].0,
                        placed(l[k].1, true, linear_position(l, k, is_horizontal(p)), None, l[k].1.mode),
                    ),
            ),
            p,
        )
    }
}

/// The row (or column) fits within `i32`.
pub open spec fn linear_fits(t: Entries, p: VirtualPreset, hint: Option<Seq<char>>) -> bool {
    let l = linear_order(t, p, hint);
    if is_horizontal(p) {
        width_before(l, l.len() as int) <= i32::MAX
    } else {
        height_before(l, l.len() as int) <= i32::MAX
    }
}

proof fn lemma_before_monotone(l: Entries, k: int, n: int)
    requires
        0 <= k <= n <= l.len(),
    ensures
        width_before(l, k) <= width_before(l, n),
        height_before(l, k) <= height_before(l, n),
        0 <= width_before(l, k),
        0 <= height_before(l, k),
    decreases n - k,
{
    lemma_before_nonneg(l, k);
    if k < n {
        lemma_before_monotone(l, k + 1, n);
    }
}

proof fn lemma_before_nonneg(l: Entries, k: int)
    ensures
        0 <= width_before(l, k),
        0 <= height_before(l, k),
    decreases k,
{
    if k > 0 {
        lemma_before_nonneg(l, k - 1);
    }
}

proof fn lemma_max_fit_width(l: Entries)
    ensures
        0 <= max_fit_width(l) <= i32::MAX,
    decreases l.len(),
{
    if l.len() > 0 {
        lemma_max_fit_width(l.drop_last());
    }
}

fn clamped(v: u32) -> (r: i32)
    ensures
        r == clamp_i32(v),
{
    if v <= i32::MAX as u32 {
        v as i32
    } else {
        i32::MAX
    }
}

fn plan_linear(topology: &Topology, preset: VirtualPreset, primary_hint: Option<&str>) -> (r: Result<
    LayoutPlan,
    PlanError,
>)
    requires
        topology.wf(),
        is_linear(preset),
        linear_fits(topology@, preset, hint_view(primary_hint)),
    ensures
        plan_result_view(r) == linear_spec(topology@, preset, hint_view(primary_hint)),
        r is Ok ==> r->Ok_0.wf(),
{
    let ghost t = topology@;
    let ghost hint = hint_view(primary_hint);
    let reverse = preset.is_reverse();
    let horizontal = match preset {
        VirtualPreset::Horizontal | VirtualPreset::HorizontalReverse => true,
        _ => false,
    };
    let available = available_outputs(topology);
    if available.len() == 0 {
        proof {
            if is_reverse_spec(preset) {
                assert(linear_order(t, preset, hint).len() == 0);
            }
        }
        return invalid_configuration("No outputs to arrange");
    }
    proof {
        super::order::lemma_increasing_distinct(view_names(entry_views(available@)));
    }
    let rotated = rotate_to_hint(available, primary_hint);
    let ordered = if reverse {
        reversed(rotated)
    } else {
        rotated
    };
    let ghost l = entry_views(ordered@);
    assert(l == linear_order(t, preset, hint));
    let n = ordered.len();
    // The widest output whose width fits `i32`.
    let mut max_width: i32 = 0;
    let mut k: usize = 0;
    while k < n
        invariant
            n == l.len(),
            l == entry_views(ordered@),
            k <= n,
            max_width == max_fit_width(l.take(k as int)),
        decreases n - k,
    {
        let s = &ordered[k].1;
        assert(l[k as int].1 == s@);
        assert(l.take(k + 1).drop_last() =~= l.take(k as int));
        if let Some(m) = s.mode {
            if m.width <= i32::MAX as u32 && m.width as i32 > max_width {
                max_width = m.width as i32;
            }
        }
        k += 1;
    }
    assert(l.take(n as int) =~= l);
    proof {
        lemma_max_fit_width(l);
        lemma_before_monotone(l, 0, n as int);
    }
    let mut outputs: Vec<(String, OutputState)> = Vec::new();
    let mut x: i32 = 0;
    let mut y: i32 = 0;
    let mut k: usize = 0;
    while k < n
        invariant
            n == l.len(),
            l == entry_views(ordered@),
            horizontal == is_horizontal(preset),
            linear_fits(t, preset, hint),
            l == linear_order(t, preset, hint),
            max_width == max_fit_width(l),
            0 <= max_width <= i32::MAX,
            k <= n,
            x == (if horizontal {
                width_before(l, k as int)
            } else {
                0
            }),
            y == (if horizontal {
                0
            } else {
                height_before(l, k as int)
            }),
            outputs@.len() == k,
            forall|j: int|
                0 <= j < k ==> (#[trigger] outputs@[j]).0@ == l[j].0 && outputs@[j].1@ == placed(
                    l[j].1,
                    true,
                    linear_position(l, j, horizontal),
                    None,
                    l[j].1.mode,
                ),
        decreases n - k,
    {
        let e = &ordered[k];
        assert(l[k as int] == (e.0@, e.1@));
        let s = &e.1;
        proof {
            lemma_before_monotone(l, k + 1, n as int);
        }
        let width: i32 = match s.mode {
            Some(m) => clamped(m.width),
            None => 0,
        };
        let px = if horizontal {
            x
        } else {
            let d: i32 = max_width - width;
            if d >= 0 {
                ((d as u32) / 2) as i32
            } else {
                -((((-d) as u32) / 2) as i32)
            }
        };
        let position = Position { x: px, y };
        assert(position == linear_position(l, k as int, horizontal));
        let ns = placed_state(s, true, position, None, s.mode);
        outputs.push((e.0.clone(), ns));
        if let Some(m) = s.mode {
            if horizontal {
                x = x + clamped(m.width);
            } else {
                y = y + clamped(m.height);
            }
        }
        k += 1;
    }
    let ghost expected = Seq::new(
        l.len(),
        |j: int| (l[j].0, placed(l[j].1, true, linear_position(l, j, is_horizontal(preset)), None, l[j].1.mode)),
    );
    assert(entry_views(outputs@) =~= expected);
    proof {
        lemma_same_names(expected, l);
        assert(view_names(entry_views(outputs@)) =~= names_of(outputs@));
    }
    Ok(LayoutPlan { outputs, preset_used: Some(preset) })
}

// ---------------------------------------------------------------------------
// common, largest, mirror
// ---------------------------------------------------------------------------

/// `common`: every real output on at the origin, all in the greatest mode
/// they share.
pub open spec fn common_spec(t: Entries) -> Result<LayoutPlanView, PlanErrorView> {
    let l = available_spec(t);
    if l.len() == 0 {
        invalid("No outputs available for common layout"@)
    } else if !(exists|m: Mode| mode_shared(m, l)) {
        invalid("No common mode found"@)
    } else {
        plan_view(
            l.map_values(
                |e: (Seq<char>, OutputStateView)|
                    (e.0, placed(e.1, true, origin(), None, Some(max_in(shared_pred(l))))),
            ),
            VirtualPreset::Common,
        )
    }
}

/// A mode found in a list that holds exactly the modes with property `p` is
/// the greatest such mode when no mode of the list outranks it.
proof fn lemma_max_of_list(v: Seq<Mode>, m: Mode, p: spec_fn(Mode) -> bool)
    requires
        forall|m2: Mode| #[trigger] v.contains(m2) <==> p(m2),
        v.contains(m),
        forall|k: int| 0 <= k < v.len() ==> !mode_lt(m, #[trigger] v[k]),
    ensures
        is_max_in(m, p),
        max_in(p) == m,
{
    assert forall|m2: Mode| #[trigger] p(m2) implies !mode_lt(m, m2) by {
        assert(v.contains(m2));
        let k = choose|k: int| 0 <= k < v.len() && v[k] == m2;
        assert(!mode_lt(m, v[k]));
    }
    lemma_max_in(m, p);
}

proof fn lemma_min_of_list(v: Seq<Mode>, m: Mode, p: spec_fn(Mode) -> bool)
    requires
        forall|m2: Mode| #[trigger] v.contains(m2) <==> p(m2),
        v.contains(m),
        forall|k: int| 0 <= k < v.len() ==> !mode_lt(#[trigger] v[k], m),
    ensures
        is_min_in(m, p),
        min_in(p) == m,
{
    assert forall|m2: Mode| #[trigger] p(m2) implies !mode_lt(m2, m) by {
        assert(v.contains(m2));
        let k = choose|k: int| 0 <= k < v.len() && v[k] == m2;
        assert(!mode_lt(v[k], m));
    }
    lemma_min_in(m, p);
}

fn plan_common(topology: &Topology) -> (r: Result<LayoutPlan, PlanError>)
    requires
        topology.wf(),
    ensures
        plan_result_view(r) == common_spec(topology@),
        r is Ok ==> r->Ok_0.wf(),
{
    let available = available_outputs(topology);
    let ghost l = entry_views(available@);
    if available.len() == 0 {
        return invalid_configuration("No outputs available for common layout");
    }
    let shared = shared_modes(&available);
    let mode = match max_mode(&shared) {
        Some(m) => m,
        None => {
            proof {
                if exists|m: Mode| mode_shared(m, l) {
                    let m = choose|m: Mode| mode_shared(m, l);
                    assert(shared@.contains(m));
                }
            }
            return invalid_configuration("No common mode found");
        },
    };
    proof {
        assert forall|m2: Mode| #[trigger] shared@.contains(m2) <==> (shared_pred(l))(m2) by {}
        lemma_max_of_list(shared@, mode, shared_pred(l));
        assert(mode_shared(mode, l));
    }
    let mut outputs: Vec<(String, OutputState)> = Vec::new();
    let mut i: usize = 0;
    while i < available.len()
        invariant
            l == entry_views(available@),
            mode == max_in(shared_pred(l)),
            i <= l.len(),
            outputs@.len() == i,
            forall|k: int|
                0 <= k < i ==> (#[trigger] outputs@[k]).0@ == l[k].0 && outputs@[k].1@ == placed(
                    l[k].1,
                    true,
                    origin(),
                    None,
                    Some(mode),
                ),
        decreases l.len() - i,
    {
        let e = &available[i];
        assert(l[i as int] == (e.0@, e.1@));
        let ns = placed_state(&e.1, true, Position { x: 0, y: 0 }, None, Some(mode));
        outputs.push((e.0.clone(), ns));
        i += 1;
    }
    let ghost expected = l.map_values(
        |e: (Seq<char>, OutputStateView)| (e.0, placed(e.1, true, origin(), None, Some(max_in(shared_pred(l))))),
    );
    assert(entry_views(outputs@) =~= expected);
    proof {
        super::order::lemma_increasing_distinct(view_names(l));
        lemma_same_names(expected, l);
        assert(view_names(entry_views(outputs@)) =~= names_of(outputs@));
    }
    Ok(LayoutPlan { outputs, preset_used: Some(VirtualPreset::Common) })
}

/// `largest`: every real output on at the origin, each in its own best mode.
pub open spec fn largest_spec(t: Entries) -> Result<LayoutPlanView, PlanErrorView> {
    let l = available_spec(t);
    if l.len() == 0 {
        invalid("No outputs available for largest layout"@)
    } else if exists|j: int| 0 <= j < l.len() && (#[trigger] output_modes_spec(l[j].1)).len() == 0 {
        invalid("No mode found for output"@)
    } else {
        plan_view(
            l.map_values(
                |e: (Seq<char>, OutputStateView)|
                    (
                        e.0,
                        placed(e.1, true, origin(), None, Some(best_mode_spec(output_modes_spec(e.1)))),
                    ),
            ),
            VirtualPreset::Largest,
        )
    }
}

fn plan_largest(topology: &Topology) -> (r: Result<LayoutPlan, PlanError>)
    requires
        topology.wf(),
    ensures
        plan_result_view(r) == largest_spec(topology@),
        r is Ok ==> r->Ok_0.wf(),
{
    let available = available_outputs(topology);
    let ghost l = entry_views(available@);
    if available.len() == 0 {
        return invalid_configuration("No outputs available for largest layout");
    }
    let mut outputs: Vec<(String, OutputState)> = Vec::new();
    let mut i: usize = 0;
    while i < available.len()
        invariant
            l == entry_views(available@),
            l == available_spec(topology@),
            i <= l.len(),
            outputs@.len() == i,
            forall|k: int| 0 <= k < i ==> (#[trigger] output_modes_spec(l[k].1)).len() > 0,
            forall|k: int|
                0 <= k < i ==> (#[trigger] outputs@[k]).0@ == l[k].0 && outputs@[k].1@ == placed(
                    l[k].1,
                    true,
                    origin(),
                    None,
                    Some(best_mode_spec(output_modes_spec(l[k].1))),
                ),
        decreases l.len() - i,
    {
        let e = &available[i];
        assert(l[i as int] == (e.0@, e.1@));
        let modes = output_modes(&e.1);
        if modes.len() == 0 {
            assert(output_modes_spec(l[i as int].1).len() == 0);
            assert(l == available_spec(topology@));
            assert(exists|j: int|
                0 <= j < l.len() && (#[trigger] output_modes_spec(l[j].1)).len() == 0);
            return invalid_configuration("No mode found for output");
        }
        let best = best_mode(&modes);
        let ns = placed_state(&e.1, true, Position { x: 0, y: 0 }, None, Some(best));
        outputs.push((e.0.clone(), ns));
        i += 1;
    }
    let ghost expected = l.map_values(
        |e: (Seq<char>, OutputStateView)|
            (e.0, placed(e.1, true, origin(), None, Some(best_mode_spec(output_modes_spec(e.1))))),
    );
    assert(entry_views(outputs@) =~= expected);
    proof {
        super::order::lemma_increasing_distinct(view_names(l));
        lemma_same_names(expected, l);
        assert(view_names(entry_views(outputs@)) =~= names_of(outputs@));
    }
    Ok(LayoutPlan { outputs, preset_used: Some(VirtualPreset::Largest) })
}

/// The current mode of some enabled real output of the topology.
pub open spec fn active_mode(m: Mode, t: Entries) -> bool {
    exists|i: int| 0 <= i < t.len() && enabled_real(#[trigger] t[i].1) && t[i].1.mode == Some(m)
}

pub open spec fn active_pred(t: Entries) -> spec_fn(Mode) -> bool {
    |m: Mode| active_mode(m, t)
}

pub open spec fn fits_under(m: Mode, f: Mode) -> bool {
    m.width <= f.width && m.height <= f.height
}

pub open spec fn under_pred(l: Entries, f: Mode) -> spec_fn(Mode) -> bool {
    |m: Mode| mode_shared(m, l) && fits_under(m, f)
}

/// The mode that mirrored outputs share: the least mode now in use when all
/// outputs offer it; else the greatest shared mode no wider and no taller
/// than it; else the least shared mode.
pub open spec fn mirror_mode_spec(t: Entries, l: Entries) -> Mode {
    if exists|m: Mode| active_mode(m, t) {
        let f = min_in(active_pred(t));
        if mode_shared(f, l) {
            f
        } else if exists|m: Mode| #[trigger] mode_shared(m, l) && fits_under(m, f) {
            max_in(under_pred(l, f))
        } else {
            min_in(shared_pred(l))
        }
    } else {
        min_in(shared_pred(l))
    }
}

pub open spec fn mirror_target_for(name: Seq<char>, primary: Seq<char>) -> Option<Seq<char>> {
    if name == primary {
        None
    } else {
        Some(primary)
    }
}

/// `mirror`: every real output on at the origin in the shared mirror mode,
/// all but the primary (first) mirroring it.
pub open spec fn mirror_spec(t: Entries, hint: Option<Seq<char>>) -> Result<LayoutPlanView, PlanErrorView> {
    let l = with_hint(available_spec(t), hint);
    if l.len() == 0 {
        invalid("No outputs available for mirrored layout"@)
    } else if !(exists|m: Mode| mode_shared(m, l)) {
        invalid("No common mode found"@)
    } else {
        plan_view(
            l.map_values(
                |e: (Seq<char>, OutputStateView)|
                    (
                        e.0,
                        placed(
                            e.1,
                            true,
                            origin(),
                            mirror_target_for(e.0, l[0].0),
                            Some(mirror_mode_spec(t, l)),
                        ),
                    ),
            ),
            VirtualPreset::Mirror,
        )
    }
}

fn mirror_mode(topology: &Topology, outputs: &Vec<(String, OutputState)>) -> (r: Option<Mode>)
    requires
        outputs@.len() > 0,
    ensures
        match r {
            Some(m) => (exists|m: Mode| mode_shared(m, entry_views(outputs@))) && m
                == mirror_mode_spec(topology@, entry_views(outputs@)),
            None => !(exists|m: Mode| mode_shared(m, entry_views(outputs@))),
        },
{
    let ghost t = topology@;
    let ghost l = entry_views(outputs@);
    let shared = shared_modes(outputs);
    let mut active: Vec<Mode> = Vec::new();
    let mut i: usize = 0;
    while i < topology.outputs.len()
        invariant
            t == topology@,
            i <= t.len(),
            forall|m: Mode|
                #[trigger] active@.contains(m) <==> exists|j: int|
                    0 <= j < i && enabled_real(#[trigger] t[j].1) && t[j].1.mode == Some(m),
        decreases t.len() - i,
    {
        let s = &topology.outputs[i].1;
        assert(t[i as int].1 == s@);
        let ghost old_a = active@;
        if s.enabled && !s.identity.is_ignored && !s.identity.is_virtual {
            if let Some(m) = s.mode {
                active.push(m);
            }
        }
        proof {
            assert forall|m: Mode| #[trigger] active@.contains(m) <==> exists|j: int|
                0 <= j < i + 1 && enabled_real(#[trigger] t[j].1) && t[j].1.mode == Some(m) by {
                if active@.contains(m) {
                    let k = choose|k: int| 0 <= k < active@.len() && active@[k] == m;
                    if k < old_a.len() {
                        assert(old_a[k] == m);
                        assert(old_a.contains(m));
                    } else {
                        assert(enabled_real(t[i as int].1) && t[i as int].1.mode == Some(m));
                    }
                }
                if exists|j: int|
                    0 <= j < i + 1 && enabled_real(#[trigger] t[j].1) && t[j].1.mode == Some(m) {
                    let j = choose|j: int|
                        0 <= j < i + 1 && enabled_real(#[trigger] t[j].1) && t[j].1.mode == Some(m);
                    if j < i {
                        assert(old_a.contains(m));
                        let k = choose|k: int| 0 <= k < old_a.len() && old_a[k] == m;
                        assert(active@[k] == m);
                    } else {
                        assert(active@[active@.len() - 1] == m);
                    }
                }
            }
        }
        i += 1;
    }
    proof {
        assert forall|m2: Mode| #[trigger] shared@.contains(m2) <==> (shared_pred(l))(m2) by {}
        assert forall|m2: Mode| #[trigger] active@.contains(m2) <==> (active_pred(t))(m2) by {}
    }
    if shared.len() == 0 {
        proof {
            if exists|m: Mode| mode_shared(m, l) {
                let m = choose|m: Mode| mode_shared(m, l);
                assert(shared@.contains(m));
            }
        }
        return None;
    }
    assert(shared@.contains(shared@[0]));
    assert(mode_shared(shared@[0], l));
    let floor = min_mode(&active);
    if floor.is_none() {
        proof {
            if exists|m: Mode| active_mode(m, t) {
                let m = choose|m: Mode| active_mode(m, t);
                assert((active_pred(t))(m));
                assert(active@.contains(m));
            }
        }
    }
    if let Some(f) = floor {
        proof {
            lemma_min_of_list(active@, f, active_pred(t));
            assert(active_mode(f, t));
        }
        if contains_mode(&shared, f) {
            return Some(f);
        }
        let mut under: Vec<Mode> = Vec::new();
        let mut k: usize = 0;
        while k < shared.len()
            invariant
                k <= shared@.len(),
                forall|m2: Mode| #[trigger] shared@.contains(m2) <==> mode_shared(m2, l),
                forall|m: Mode|
                    #[trigger] under@.contains(m) <==> (shared@.take(k as int).contains(m)
                        && fits_under(m, f)),
            decreases shared@.len() - k,
        {
            let m = shared[k];
            let ghost old_u = under@;
            let ghost s0 = shared@.take(k as int);
            let ghost s1 = shared@.take(k + 1);
            if m.width <= f.width && m.height <= f.height {
                under.push(m);
            }
            proof {
                assert(s1 =~= s0.push(m));
                assert forall|m2: Mode| #[trigger] under@.contains(m2) <==> (s1.contains(m2)
                    && fits_under(m2, f)) by {
                    if under@.contains(m2) {
                        let q = choose|q: int| 0 <= q < under@.len() && under@[q] == m2;
                        if q < old_u.len() {
                            assert(old_u[q] == m2);
                            assert(old_u.contains(m2));
                            let q2 = choose|q2: int| 0 <= q2 < s0.len() && s0[q2] == m2;
                            assert(s1[q2] == m2);
                        } else {
                            assert(s1[k as int] == m2);
                        }
                    }
                    if s1.contains(m2) && fits_under(m2, f) {
                        let q = choose|q: int| 0 <= q < s1.len() && s1[q] == m2;
                        if q < k {
                            assert(s0[q] == m2);
                            assert(old_u.contains(m2));
                            let q3 = choose|q3: int| 0 <= q3 < old_u.len() && old_u[q3] == m2;
                            assert(under@[q3] == m2);
                        } else {
                            assert(under@[under@.len() - 1] == m2);
                        }
                    }
                }
            }
            k += 1;
        }
        assert(shared@.take(shared@.len() as int) =~= shared@);
        proof {
            assert forall|m2: Mode| #[trigger] under@.contains(m2) <==> (under_pred(l, f))(m2) by {}
        }
        if let Some(c) = max_mode(&under) {
            proof {
                lemma_max_of_list(under@, c, under_pred(l, f));
                assert(mode_shared(c, l) && fits_under(c, f));
            }
            return Some(c);
        }
        proof {
            if exists|m: Mode| #[trigger] mode_shared(m, l) && fits_under(m, f) {
                let m = choose|m: Mode| #[trigger] mode_shared(m, l) && fits_under(m, f);
                assert(under@.contains(m));
            }
        }
    }
    let least = min_mode(&shared);
    match least {
        Some(m) => {
            proof {
                lemma_min_of_list(shared@, m, shared_pred(l));
            }
            Some(m)
        },
        None => None,
    }
}

fn plan_mirror(topology: &Topology, primary_hint: Option<&str>) -> (r: Result<LayoutPlan, PlanError>)
    requires
        topology.wf(),
    ensures
        plan_result_view(r) == mirror_spec(topology@, hint_view(primary_hint)),
        r is Ok ==> r->Ok_0.wf(),
{
    let ghost t = topology@;
    let available = available_outputs(topology);
    if available.len() == 0 {
        return invalid_configuration("No outputs available for mirrored layout");
    }
    proof {
        super::order::lemma_increasing_distinct(view_names(entry_views(available@)));
    }
    let ordered = rotate_to_hint(available, primary_hint);
    let ghost l = entry_views(ordered@);
    let mode = match mirror_mode(topology, &ordered) {
        Some(m) => m,
        None => {
            return invalid_configuration("No common mode found");
        },
    };
    let primary = ordered[0].0.clone();
    assert(primary@ == l[0].0);
    let mut outputs: Vec<(String, OutputState)> = Vec::new();
    let mut i: usize = 0;
    while i < ordered.len()
        invariant
            l == entry_views(ordered@),
            l.len() > 0,
            primary@ == l[0].0,
            mode == mirror_mode_spec(t, l),
            i <= l.len(),
            outputs@.len() == i,
            forall|k: int|
                0 <= k < i ==> (#[trigger] outputs@[k]).0@ == l[k].0 && outputs@[k].1@ == placed(
                    l[k].1,
                    true,
                    origin(),
                    mirror_target_for(l[k].0, l[0].0),
                    Some(mode),
                ),
        decreases l.len() - i,
    {
        let e = &ordered[i];
        assert(l[i as int] == (e.0@, e.1@));
        let target = if e.0 == primary {
            None
        } else {
            Some(primary.clone())
        };
        assert(opt_view(target) == mirror_target_for(l[i as int].0, l[0].0));
        let ns = placed_state(&e.1, true, Position { x: 0, y: 0 }, target, Some(mode));
        outputs.push((e.0.clone(), ns));
        i += 1;
    }
    let ghost expected = l.map_values(
        |e: (Seq<char>, OutputStateView)|
            (e.0, placed(e.1, true, origin(), mirror_target_for(e.0, l[0].0), Some(mirror_mode_spec(t, l)))),
    );
    assert(entry_views(outputs@) =~= expected);
    proof {
        lemma_same_names(expected, l);
        assert(view_names(entry_views(outputs@)) =~= names_of(outputs@));
    }
    Ok(LayoutPlan { outputs, preset_used: Some(VirtualPreset::Mirror) })
}

// ---------------------------------------------------------------------------
// Dispatch
// ---------------------------------------------------------------------------

/// The plan that `preset` gives the topology.
pub open spec fn preset_spec(
    p: VirtualPreset,
    t: Entries,
    b: Option<OutputIdentityView>,
    hint: Option<Seq<char>>,
) -> Result<LayoutPlanView, PlanErrorView> {
    match p {
        VirtualPreset::Off => off_spec(t, b),
        VirtualPreset::External => external_spec(t, b),
        VirtualPreset::Builtin => builtin_spec(t, b),
        VirtualPreset::Common => common_spec(t),
        VirtualPreset::Largest => largest_spec(t),
        VirtualPreset::Mirror => mirror_spec(t, hint),
        _ => linear_spec(t, p, hint),
    }
}

/// The preset's placement arithmetic stays within `i32`.
pub open spec fn preset_fits(
    p: VirtualPreset,
    t: Entries,
    b: Option<OutputIdentityView>,
    hint: Option<Seq<char>>,
) -> bool {
    match p {
        VirtualPreset::External => external_fits(t, b),
        VirtualPreset::Horizontal | VirtualPreset::HorizontalReverse | VirtualPreset::Vertical
        | VirtualPreset::VerticalReverse => linear_fits(t, p, hint),
        _ => true,
    }
}

pub(crate) fn plan_from_preset(
    preset: VirtualPreset,
    topology: &Topology,
    builtin_output: Option<&OutputIdentity>,
    primary_hint: Option<&str>,
) -> (r: Result<LayoutPlan, PlanError>)
    requires
        topology.wf(),
        preset_fits(preset, topology@, opt_identity_view(builtin_output), hint_view(primary_hint)),
    ensures
        plan_result_view(r) == preset_spec(
            preset,
            topology@,
            opt_identity_view(builtin_output),
            hint_view(primary_hint),
        ),
        r is Ok ==> r->Ok_0.wf(),
{
    match preset {
        VirtualPreset::Off => plan_off(topology, builtin_output),
        VirtualPreset::External => plan_external(topology, builtin_output),
        VirtualPreset::Builtin => plan_builtin(topology, builtin_output),
        VirtualPreset::Common => plan_common(topology),
        VirtualPreset::Largest => plan_largest(topology),
        VirtualPreset::Mirror => plan_mirror(topology, primary_hint),
        _ => plan_linear(topology, preset, primary_hint),
    }
}

// ---------------------------------------------------------------------------
// What the presets promise
// ---------------------------------------------------------------------------

/// `off` keeps exactly the built-in displays on, every output at the
/// origin; without a built-in display every output is off.
pub proof fn lemma_off_keeps_only_builtin(t: Entries, b: Option<OutputIdentityView>)
    requires
        off_spec(t, b) is Ok,
    ensures
        ({
            let p = off_spec(t, b)->Ok_0.outputs;
            &&& p.len() == t.len()
            &&& forall|i: int|
                0 <= i < p.len() ==> (#[trigger] p[i]).0 == t[i].0 && (p[i].1.enabled <==> (
                has_internal_spec(t, b) && is_internal_spec(t[i].1, b))) && p[i].1.position == origin()
            &&& !has_internal_spec(t, b) ==> forall|i: int| 0 <= i < p.len() ==> !(#[trigger] p[i]).1.enabled
        }),
{
}

/// `external` keeps the real outputs that are not built in on and turns the
/// built-in ones off, or, where every real output is built in, keeps those
/// on; virtual and ignored outputs stay on or off as they were, and where
/// on, where they were.
pub proof fn lemma_external_prefers_external_outputs(t: Entries, b: Option<OutputIdentityView>)
    requires
        external_spec(t, b) is Ok,
    ensures
        ({
            let p = external_spec(t, b)->Ok_0.outputs;
            &&& p.len() == t.len()
            &&& forall|i: int|
                0 <= i < p.len() && is_real_output(t[i].1) ==> (#[trigger] p[i]).0 == t[i].0 && (
                p[i].1.enabled <==> (if has_external_spec(t, b) {
                    !is_internal_spec(t[i].1, b)
                } else {
                    is_internal_spec(t[i].1, b)
                }))
            &&& forall|i: int|
                0 <= i < p.len() && !is_real_output(t[i].1) ==> (#[trigger] p[i]).0 == t[i].0
                    && p[i].1.enabled == t[i].1.enabled && (t[i].1.enabled ==> p[i].1.position
                    == t[i].1.position)
        }),
{
    let st = external_stage(t, b);
    let p = external_spec(t, b)->Ok_0.outputs;
    assert forall|i: int| 0 <= i < p.len() && !is_real_output(t[i].1) implies (#[trigger] p[i]).0
        == t[i].0 && p[i].1.enabled == t[i].1.enabled && (t[i].1.enabled ==> p[i].1.position
        == t[i].1.position) by {
        assert(st[i].1.identity == t[i].1.identity);
        assert(!enabled_real(st[i].1));
    }
    assert forall|i: int| 0 <= i < p.len() && is_real_output(t[i].1) implies (#[trigger] p[i]).0
        == t[i].0 && (p[i].1.enabled <==> (if has_external_spec(t, b) {
        !is_internal_spec(t[i].1, b)
    } else {
        is_internal_spec(t[i].1, b)
    })) by {
        assert(st[i].1.identity == t[i].1.identity);
    }
}

/// `builtin` keeps exactly the built-in displays among the real outputs
/// on, and leaves virtual and ignored outputs as they were; it fails where
/// there is no built-in display.
pub proof fn lemma_builtin_keeps_only_builtin(t: Entries, b: Option<OutputIdentityView>)
    ensures
        t.len() > 0 && !has_internal_spec(t, b) ==> builtin_spec(t, b) is Err,
        builtin_spec(t, b) is Ok ==> ({
            let p = builtin_spec(t, b)->Ok_0.outputs;
            &&& has_internal_spec(t, b)
            &&& p.len() == t.len()
            &&& forall|i: int|
                0 <= i < p.len() ==> (#[trigger] p[i]).0 == t[i].0 && (is_real_output(t[i].1) ==> (
                p[i].1.enabled <==> is_internal_spec(t[i].1, b))) && (!is_real_output(t[i].1)
                ==> p[i].1 == t[i].1)
        }),
{
}

/// `common` turns every output on at the origin, mirroring nothing, all in
/// one mode.
pub proof fn lemma_common_clones_at_origin(t: Entries)
    requires
        common_spec(t) is Ok,
    ensures
        ({
            let p = common_spec(t)->Ok_0.outputs;
            &&& p.len() > 0
            &&& p[0].1.mode is Some
            &&& forall|i: int|
                0 <= i < p.len() ==> (#[trigger] p[i]).1.enabled && p[i].1.position == origin()
                    && p[i].1.mirror_target is None && p[i].1.mode == p[0].1.mode
        }),
{
}

/// `largest` turns every output on at the origin, mirroring nothing, each
/// in a mode of its own.
pub proof fn lemma_largest_overlaps_at_origin(t: Entries)
    requires
        largest_spec(t) is Ok,
    ensures
        ({
            let p = largest_spec(t)->Ok_0.outputs;
            &&& p.len() > 0
            &&& forall|i: int|
                0 <= i < p.len() ==> (#[trigger] p[i]).1.enabled && p[i].1.position == origin()
                    && p[i].1.mirror_target is None && p[i].1.mode is Some
        }),
{
}

/// `mirror` turns every output on at the origin in one mode; the first
/// output (the primary) mirrors nothing and every other output mirrors it.
pub proof fn lemma_mirror_targets_primary(t: Entries, hint: Option<Seq<char>>)
    requires
        mirror_spec(t, hint) is Ok,
    ensures
        ({
            let p = mirror_spec(t, hint)->Ok_0.outputs;
            &&& p.len() > 0
            &&& p[0].1.mode is Some
            &&& p[0].1.mirror_target is None
            &&& forall|i: int|
                0 <= i < p.len() ==> (#[trigger] p[i]).1.enabled && p[i].1.position == origin()
                    && p[i].1.mode == p[0].1.mode && p[i].1.mirror_target == (if p[i].0 == p[0].0 {
                    None
                } else {
                    Some(p[0].0)
                })
        }),
{
}

/// `horizontal` (and its reverse) places the outputs in a row from the
/// origin, each right after the previous one; `vertical` (and its reverse)
/// stacks them in a column from `y = 0`, each right below the previous one.
/// Every output is on.
pub proof fn lemma_linear_places_side_by_side(t: Entries, p: VirtualPreset, hint: Option<Seq<char>>)
    requires
        is_linear(p),
        linear_spec(t, p, hint) is Ok,
        linear_fits(t, p, hint),
    ensures
        ({
            let o = linear_spec(t, p, hint)->Ok_0.outputs;
            &&& o.len() > 0
            &&& forall|i: int| 0 <= i < o.len() ==> (#[trigger] o[i]).1.enabled
            &&& is_horizontal(p) ==> o[0].1.position == origin() && forall|k: int|
                0 <= k < o.len() ==> (#[trigger] o[k]).1.position.y == 0
            &&& is_horizontal(p) ==> forall|k: int|
                0 <= k < o.len() - 1 ==> (#[trigger] o[k + 1]).1.position.x == o[k].1.position.x
                    + clamped_width(o[k].1)
            &&& !is_horizontal(p) ==> o[0].1.position.y == 0
            &&& !is_horizontal(p) ==> forall|k: int|
                0 <= k < o.len() - 1 ==> (#[trigger] o[k + 1]).1.position.y == o[k].1.position.y
                    + clamped_height(o[k].1)
        }),
{
    let l = linear_order(t, p, hint);
    let o = linear_spec(t, p, hint)->Ok_0.outputs;
    let n = l.len() as int;
    lemma_before_nonneg(l, 0);
    if is_horizontal(p) {
        assert forall|k: int| 0 <= k < o.len() - 1 implies (#[trigger] o[k + 1]).1.position.x
            == o[k].1.position.x + clamped_width(o[k].1) by {
            lemma_before_monotone(l, k, n);
            lemma_before_monotone(l, k + 1, n);
            assert(width_before(l, k + 1) == width_before(l, k) + clamped_width(l[k].1));
        }
    } else {
        assert forall|k: int| 0 <= k < o.len() - 1 implies (#[trigger] o[k + 1]).1.position.y
            == o[k].1.position.y + clamped_height(o[k].1) by {
            lemma_before_monotone(l, k, n);
            lemma_before_monotone(l, k + 1, n);
            assert(height_before(l, k + 1) == height_before(l, k) + clamped_height(l[k].1));
        }
    }
}

} // verus!
