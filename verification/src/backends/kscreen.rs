//! The KScreen backend's logic: how the outputs `kscreen-doctor` reports
//! become a topology, and how a plan becomes `kscreen-doctor` arguments.
use vstd::prelude::*;

use super::{areas_fit, dedup_spec, listed_before_fn, names_virtual, sorted_unique_modes, text_names_virtual};
use crate::assoc::{assoc_set, names_of, view_names};
use crate::model::identity::OutputIdentityView;
use crate::assoc::lookup;
use crate::engine::{ApplyResult, ConfigFailureKind, TestResult, ValidationStatus};
use crate::model::{Mode, OutputIdentity, OutputState, OutputStateView, Position, Topology, Transform};
use crate::planner::LayoutPlan;
use crate::text::{
    decimal, opt_view, push_decimal, push_signed_decimal, push_str, signed_decimal, sort_by,
    sort_strings, str_eq, str_lt_fn, views,
};

verus! {

// ---------------------------------------------------------------------------
// Rotations
// ---------------------------------------------------------------------------

pub const ROTATION_NONE: i32 = 1;
pub const ROTATION_LEFT: i32 = 2;
pub const ROTATION_INVERTED: i32 = 4;
pub const ROTATION_RIGHT: i32 = 8;
pub const ROTATION_FLIPPED: i32 = 16;
pub const ROTATION_FLIPPED_90: i32 = 32;
pub const ROTATION_FLIPPED_180: i32 = 64;
pub const ROTATION_FLIPPED_270: i32 = 128;

/// KScreen's rotation flags; anything else is taken as no rotation.
pub open spec fn transform_from_kscreen_spec(rotation: i32) -> Transform {
    if rotation == ROTATION_LEFT {
        Transform::Rot90
    } else if rotation == ROTATION_INVERTED {
        Transform::Rot180
    } else if rotation == ROTATION_RIGHT {
        Transform::Rot270
    } else if rotation == ROTATION_FLIPPED {
        Transform::Flipped
    } else if rotation == ROTATION_FLIPPED_90 {
        Transform::Flipped90
    } else if rotation == ROTATION_FLIPPED_180 {
        Transform::Flipped180
    } else if rotation == ROTATION_FLIPPED_270 {
        Transform::Flipped270
    } else {
        Transform::Normal
    }
}

pub fn transform_from_kscreen(rotation: i32) -> (r: Transform)
    ensures
        r == transform_from_kscreen_spec(rotation),
{
    if rotation == ROTATION_LEFT {
        Transform::Rot90
    } else if rotation == ROTATION_INVERTED {
        Transform::Rot180
    } else if rotation == ROTATION_RIGHT {
        Transform::Rot270
    } else if rotation == ROTATION_FLIPPED {
        Transform::Flipped
    } else if rotation == ROTATION_FLIPPED_90 {
        Transform::Flipped90
    } else if rotation == ROTATION_FLIPPED_180 {
        Transform::Flipped180
    } else if rotation == ROTATION_FLIPPED_270 {
        Transform::Flipped270
    } else {
        Transform::Normal
    }
}

/// The rotation an output has when KScreen reports none.
pub fn default_rotation() -> (r: i32)
    ensures
        r == ROTATION_NONE,
{
    ROTATION_NONE
}

/// The name `kscreen-doctor` takes for a transform.
pub open spec fn rotation_query_spec(t: Transform) -> Seq<char> {
    match t {
        Transform::Normal => "normal"@,
        Transform::Rot90 => "left"@,
        Transform::Rot180 => "inverted"@,
        Transform::Rot270 => "right"@,
        Transform::Flipped => "flipped"@,
        Transform::Flipped90 => "flipped90"@,
        Transform::Flipped180 => "flipped180"@,
        Transform::Flipped270 => "flipped270"@,
    }
}

pub fn rotation_query(t: Transform) -> (r: &'static str)
    ensures
        r@ == rotation_query_spec(t),
{
    match t {
        Transform::Normal => "normal",
        Transform::Rot90 => "left",
        Transform::Rot180 => "inverted",
        Transform::Rot270 => "right",
        Transform::Flipped => "flipped",
        Transform::Flipped90 => "flipped90",
        Transform::Flipped180 => "flipped180",
        Transform::Flipped270 => "flipped270",
    }
}

/// A transform asked of `kscreen-doctor` by name reads back, as a rotation
/// flag, as the same transform.
pub open spec fn rotation_flag(t: Transform) -> i32 {
    match t {
        Transform::Normal => ROTATION_NONE,
        Transform::Rot90 => ROTATION_LEFT,
        Transform::Rot180 => ROTATION_INVERTED,
        Transform::Rot270 => ROTATION_RIGHT,
        Transform::Flipped => ROTATION_FLIPPED,
        Transform::Flipped90 => ROTATION_FLIPPED_90,
        Transform::Flipped180 => ROTATION_FLIPPED_180,
        Transform::Flipped270 => ROTATION_FLIPPED_270,
    }
}

/// Every transform has its own rotation flag, which reads back as it.
pub proof fn lemma_rotation_roundtrip(t: Transform)
    ensures
        transform_from_kscreen_spec(rotation_flag(t)) == t,
{
}

// ---------------------------------------------------------------------------
// What kscreen-doctor reports
// ---------------------------------------------------------------------------

#[derive(Debug, Clone, Copy, PartialEq, Eq, Structural)]
pub struct KScreenSize {
    pub width: u32,
    pub height: u32,
}

/// A mode of an output; `refresh` is its refresh rate rounded to whole Hz.
#[derive(Debug, PartialEq)]
pub struct KScreenMode {
    pub id: String,
    pub refresh: u32,
    pub size: KScreenSize,
}

/// An output as `kscreen-doctor --json` reports it; `scale` holds the scale
/// factor as the bit pattern of an IEEE-754 binary64 value.
#[derive(Debug, PartialEq)]
pub struct KScreenOutput {
    pub name: String,
    pub connected: bool,
    pub enabled: bool,
    pub id: u32,
    pub current_mode_id: Option<String>,
    pub modes: Vec<KScreenMode>,
    pub pos: Position,
    pub scale: u64,
    pub replication_source: u32,
    pub rotation: i32,
    pub size: KScreenSize,
}

#[derive(Debug, PartialEq)]
pub struct KScreenConfig {
    pub outputs: Vec<KScreenOutput>,
}

pub open spec fn kscreen_mode(m: KScreenMode) -> Mode {
    Mode { width: m.size.width, height: m.size.height, refresh: m.refresh }
}

/// The first mode with the given id.
pub open spec fn first_with_id(ms: Seq<KScreenMode>, id: Seq<char>) -> Option<int> {
    if exists|i: int| 0 <= i < ms.len() && (#[trigger] ms[i]).id@ == id {
        Some(
            choose|i: int|
                0 <= i < ms.len() && (#[trigger] ms[i]).id@ == id && forall|j: int|
                    0 <= j < i ==> (#[trigger] ms[j]).id@ != id,
        )
    } else {
        None
    }
}

/// The first mode of the given size.
pub open spec fn first_with_size(ms: Seq<KScreenMode>, size: KScreenSize) -> Option<int> {
    if exists|i: int| 0 <= i < ms.len() && (#[trigger] ms[i]).size == size {
        Some(
            choose|i: int|
                0 <= i < ms.len() && (#[trigger] ms[i]).size == size && forall|j: int|
                    0 <= j < i ==> (#[trigger] ms[j]).size != size,
        )
    } else {
        None
    }
}

fn find_mode_with_id(ms: &Vec<KScreenMode>, id: &str) -> (r: Option<usize>)
    ensures
        match r {
            Some(i) => first_with_id(ms@, id@) == Some(i as int) && i < ms@.len(),
            None => first_with_id(ms@, id@) is None,
        },
{
    let mut i: usize = 0;
    while i < ms.len()
        invariant
            i <= ms@.len(),
            forall|j: int| 0 <= j < i ==> (#[trigger] ms@[j]).id@ != id@,
        decreases ms@.len() - i,
    {
        if crate::text::str_eq(ms[i].id.as_str(), id) {
            proof {
                let c = first_with_id(ms@, id@)->0;
                if c < i {
                    assert(ms@[c].id@ != id@);
                }
                if c > i {
                    assert(ms@[i as int].id@ != id@);
                }
            }
            return Some(i);
        }
        i += 1;
    }
    None
}

fn find_mode_with_size(ms: &Vec<KScreenMode>, size: KScreenSize) -> (r: Option<usize>)
    ensures
        match r {
            Some(i) => first_with_size(ms@, size) == Some(i as int) && i < ms@.len(),
            None => first_with_size(ms@, size) is None,
        },
{
    let mut i: usize = 0;
    while i < ms.len()
        invariant
            i <= ms@.len(),
            forall|j: int| 0 <= j < i ==> (#[trigger] ms@[j]).size != size,
        decreases ms@.len() - i,
    {
        if ms[i].size == size {
            proof {
                let c = first_with_size(ms@, size)->0;
                if c < i {
                    assert(ms@[c].size != size);
                }
                if c > i {
                    assert(ms@[i as int].size != size);
                }
            }
            return Some(i);
        }
        i += 1;
    }
    None
}

/// An output's mode: the one its current mode id names, else (for an
/// enabled output) the first mode of the output's size.
pub open spec fn current_mode_spec(o: KScreenOutput) -> Option<Mode> {
    let by_id = match o.current_mode_id {
        Some(id) => first_with_id(o.modes@, id@),
        None => None,
    };
    match by_id {
        Some(i) => Some(kscreen_mode(o.modes@[i])),
        None => if o.enabled {
            match first_with_size(o.modes@, o.size) {
                Some(i) => Some(kscreen_mode(o.modes@[i])),
                None => None,
            }
        } else {
            None
        },
    }
}

pub fn current_mode_for_output(output: &KScreenOutput) -> (r: Option<Mode>)
    ensures
        r == current_mode_spec(*output),
{
    let by_id = match &output.current_mode_id {
        Some(id) => find_mode_with_id(&output.modes, id.as_str()),
        None => None,
    };
    let found = match by_id {
        Some(i) => Some(i),
        None => if output.enabled {
            find_mode_with_size(&output.modes, output.size)
        } else {
            None
        },
    };
    match found {
        Some(i) => {
            let m = &output.modes[i];
            Some(Mode { width: m.size.width, height: m.size.height, refresh: m.refresh })
        },
        None => None,
    }
}

pub open spec fn output_modes_spec(o: KScreenOutput) -> Seq<Mode> {
    o.modes@.map_values(|m: KScreenMode| kscreen_mode(m))
}

/// An output's modes, sorted by area, then refresh rate, with repeats removed.
pub open spec fn available_modes_spec(o: KScreenOutput) -> Seq<Mode> {
    dedup_spec(sort_by(output_modes_spec(o), listed_before_fn()))
}

pub fn available_modes(output: &KScreenOutput) -> (r: Vec<Mode>)
    requires
        areas_fit(output_modes_spec(*output)),
    ensures
        r@ == available_modes_spec(*output),
{
    let mut modes: Vec<Mode> = Vec::new();
    let mut i: usize = 0;
    while i < output.modes.len()
        invariant
            i <= output.modes@.len(),
            modes@ == output_modes_spec(*output).take(i as int),
        decreases output.modes@.len() - i,
    {
        let m = &output.modes[i];
        modes.push(Mode { width: m.size.width, height: m.size.height, refresh: m.refresh });
        i += 1;
        assert(modes@ =~= output_modes_spec(*output).take(i as int));
    }
    assert(output_modes_spec(*output).take(output.modes@.len() as int) =~= output_modes_spec(*output));
    sorted_unique_modes(modes)
}

/// Outputs named as virtual or headless, in any case.
pub fn is_virtual_output(name: &str) -> (r: bool)
    ensures
        r == names_virtual(name@),
{
    text_names_virtual(name)
}

/// The last output with the given id (among the connected ones only, where
/// asked), as an index by id keeps it.
pub open spec fn last_with_id(outs: Seq<KScreenOutput>, id: u32, connected_only: bool) -> Option<int>
    decreases outs.len(),
{
    if outs.len() == 0 {
        None
    } else if outs.last().id == id && (outs.last().connected || !connected_only) {
        Some(outs.len() - 1)
    } else {
        last_with_id(outs.drop_last(), id, connected_only)
    }
}

fn find_last_with_id(outs: &Vec<KScreenOutput>, id: u32, connected_only: bool) -> (r: Option<usize>)
    ensures
        match r {
            Some(i) => last_with_id(outs@, id, connected_only) == Some(i as int) && i < outs@.len(),
            None => last_with_id(outs@, id, connected_only) is None,
        },
{
    let mut n: usize = outs.len();
    assert(outs@.take(n as int) =~= outs@);
    while n > 0
        invariant
            n <= outs@.len(),
            last_with_id(outs@, id, connected_only) == last_with_id(outs@.take(n as int), id, connected_only),
        decreases n,
    {
        let o = &outs[n - 1];
        assert(outs@.take(n as int).last() == outs@[n - 1]);
        assert(outs@.take(n as int).drop_last() =~= outs@.take(n - 1));
        if o.id == id && (o.connected || !connected_only) {
            return Some(n - 1);
        }
        n -= 1;
    }
    None
}

/// The output an output mirrors: the one its replication source names, where
/// it has one (source `0` is none).
pub open spec fn mirror_target_spec(o: KScreenOutput, outs: Seq<KScreenOutput>, connected_only: bool) -> Option<
    Seq<char>,
> {
    if o.replication_source == 0 {
        None
    } else {
        match last_with_id(outs, o.replication_source, connected_only) {
            Some(i) => Some(outs[i].name@),
            None => None,
        }
    }
}

pub fn mirror_target_name(output: &KScreenOutput, outs: &Vec<KScreenOutput>, connected_only: bool) -> (r:
    Option<String>)
    ensures
        crate::text::opt_view(r) == mirror_target_spec(*output, outs@, connected_only),
{
    if output.replication_source == 0 {
        return None;
    }
    match find_last_with_id(outs, output.replication_source, connected_only) {
        Some(i) => Some(outs[i].name.clone()),
        None => None,
    }
}

// ---------------------------------------------------------------------------
// The topology
// ---------------------------------------------------------------------------

/// The output a connected KScreen output becomes.
pub open spec fn output_state_spec(o: KScreenOutput, outs: Seq<KScreenOutput>) -> OutputStateView {
    OutputStateView {
        identity: OutputIdentityView {
            edid_hash: None,
            make: None,
            model: None,
            serial: None,
            connector: Some(o.name@),
            description: None,
            is_virtual: names_virtual(o.name@),
            is_ignored: false,
        },
        enabled: o.enabled,
        mode: current_mode_spec(o),
        available_modes: available_modes_spec(o),
        position: o.pos,
        scale: o.scale,
        scaled_resolution: None,
        transform: transform_from_kscreen_spec(o.rotation),
        mirror_target: mirror_target_spec(o, outs, false),
        backend_data: None,
    }
}

pub open spec fn outputs_fit(outs: Seq<KScreenOutput>) -> bool {
    forall|i: int| 0 <= i < outs.len() ==> areas_fit(output_modes_spec(#[trigger] outs[i]))
}

/// The topology of the first `n` outputs: each connected output sets the
/// output of its name, a later one replacing an earlier one of that name.
pub open spec fn export_spec(outs: Seq<KScreenOutput>, n: int) -> Seq<(Seq<char>, OutputStateView)>
    decreases n,
{
    if n <= 0 {
        Seq::empty()
    } else {
        let o = outs[n - 1];
        if o.connected {
            assoc_set(export_spec(outs, n - 1), o.name@, output_state_spec(o, outs))
        } else {
            export_spec(outs, n - 1)
        }
    }
}

/// The topology of the connected outputs.
pub fn export_kscreen_topology(config: &KScreenConfig) -> (r: Topology)
    requires
        outputs_fit(config.outputs@),
    ensures
        r.wf(),
        r@ == export_spec(config.outputs@, config.outputs@.len() as int),
{
    let outs = &config.outputs;
    let mut topology = Topology::new();
    assert(topology@ =~= Seq::<(Seq<char>, OutputStateView)>::empty());
    let mut i: usize = 0;
    while i < outs.len()
        invariant
            outputs_fit(outs@),
            i <= outs@.len(),
            topology.wf(),
            topology@ == export_spec(outs@, i as int),
        decreases outs@.len() - i,
    {
        let o = &outs[i];
        if o.connected {
            assert(areas_fit(output_modes_spec(outs@[i as int])));
            let mut identity = OutputIdentity::new(o.name.as_str());
            identity.is_virtual = is_virtual_output(o.name.as_str());
            let state = OutputState {
                identity,
                enabled: o.enabled,
                mode: current_mode_for_output(o),
                available_modes: available_modes(o),
                position: o.pos,
                scale: o.scale,
                scaled_resolution: None,
                transform: transform_from_kscreen(o.rotation),
                mirror_target: mirror_target_name(o, outs, false),
                backend_data: None,
            };
            assert(state@ == output_state_spec(outs@[i as int], outs@));
            proof {
                crate::assoc::lemma_kv_names(topology.outputs@);
                assert(view_names(topology@) =~= names_of(topology.outputs@));
            }
            topology.insert(o.name.clone(), state);
        }
        i += 1;
    }
    topology
}

// ---------------------------------------------------------------------------
// A plan as kscreen-doctor arguments
// ---------------------------------------------------------------------------

/// The last connected output of the given name, as an index by name keeps it.
pub open spec fn connected_last(outs: Seq<KScreenOutput>, name: Seq<char>) -> Option<int>
    decreases outs.len(),
{
    if outs.len() == 0 {
        None
    } else if outs.last().connected && outs.last().name@ == name {
        Some(outs.len() - 1)
    } else {
        connected_last(outs.drop_last(), name)
    }
}

fn find_connected(outs: &Vec<KScreenOutput>, name: &str) -> (r: Option<usize>)
    ensures
        match r {
            Some(i) => connected_last(outs@, name@) == Some(i as int) && i < outs@.len(),
            None => connected_last(outs@, name@) is None,
        },
{
    let mut n: usize = outs.len();
    assert(outs@.take(n as int) =~= outs@);
    while n > 0
        invariant
            n <= outs@.len(),
            connected_last(outs@, name@) == connected_last(outs@.take(n as int), name@),
        decreases n,
    {
        let o = &outs[n - 1];
        assert(outs@.take(n as int).last() == outs@[n - 1]);
        assert(outs@.take(n as int).drop_last() =~= outs@.take(n - 1));
        if o.connected && str_eq(o.name.as_str(), name) {
            return Some(n - 1);
        }
        n -= 1;
    }
    None
}

/// The names of the connected outputs, each once (where its last output
/// stands), in order.
pub open spec fn connected_names_upto(outs: Seq<KScreenOutput>, n: int) -> Seq<Seq<char>>
    decreases n,
{
    if n <= 0 {
        Seq::empty()
    } else {
        let rest = connected_names_upto(outs, n - 1);
        if outs[n - 1].connected && connected_last(outs, outs[n - 1].name@) == Some(n - 1) {
            rest.push(outs[n - 1].name@)
        } else {
            rest
        }
    }
}

/// The names of the enabled outputs of a plan, in order.
pub open spec fn enabled_names_upto(plan: Seq<(Seq<char>, OutputStateView)>, n: int) -> Seq<Seq<char>>
    decreases n,
{
    if n <= 0 {
        Seq::empty()
    } else {
        let rest = enabled_names_upto(plan, n - 1);
        if plan[n - 1].1.enabled {
            rest.push(plan[n - 1].0)
        } else {
            rest
        }
    }
}

pub open spec fn plan_enables(plan: Seq<(Seq<char>, OutputStateView)>, name: Seq<char>) -> bool {
    lookup(plan, name) matches Some(d) && d.enabled
}

/// `output.NAME.disable` for a connected output that is on and that the plan
/// does not keep on.
pub open spec fn disable_one(plan: Seq<(Seq<char>, OutputStateView)>, outs: Seq<KScreenOutput>, name: Seq<char>) -> Seq<
    Seq<char>,
> {
    match connected_last(outs, name) {
        Some(i) => if outs[i].enabled && !plan_enables(plan, name) {
            seq!["output."@ + name + ".disable"@]
        } else {
            Seq::empty()
        },
        None => Seq::empty(),
    }
}

pub open spec fn disable_all(
    plan: Seq<(Seq<char>, OutputStateView)>,
    outs: Seq<KScreenOutput>,
    names: Seq<Seq<char>>,
) -> Seq<Seq<char>>
    decreases names.len(),
{
    if names.len() == 0 {
        Seq::empty()
    } else {
        disable_all(plan, outs, names.drop_last()) + disable_one(plan, outs, names.last())
    }
}

/// What the backend's floating-point arithmetic found for one planned output:
/// the id of the output's mode that best matches the planned mode (none when
/// the output has no mode of that size), whether the planned scale is the
/// current one, and the planned scale as `kscreen-doctor` takes it.
#[derive(Debug, PartialEq)]
pub struct PlannedOutputFacts {
    pub mode_id: Option<String>,
    pub scale_unchanged: bool,
    pub scale_text: String,
}

pub ghost struct PlannedOutputFactsView {
    pub mode_id: Option<Seq<char>>,
    pub scale_unchanged: bool,
    pub scale_text: Seq<char>,
}

impl View for PlannedOutputFacts {
    type V = PlannedOutputFactsView;

    open spec fn view(&self) -> PlannedOutputFactsView {
        PlannedOutputFactsView {
            mode_id: opt_view(self.mode_id),
            scale_unchanged: self.scale_unchanged,
            scale_text: self.scale_text@,
        }
    }
}

pub type Facts = Seq<(Seq<char>, PlannedOutputFactsView)>;

pub open spec fn not_connected_message(name: Seq<char>) -> Seq<char> {
    "output `"@ + name + "` is not connected on this KScreen session"@
}

pub open spec fn unresolved_mode_message(name: Seq<char>, m: Mode) -> Seq<char> {
    "failed to resolve mode for output `"@ + name + "`: no KScreen mode matches "@ + decimal(
        m.width as nat,
    ) + "x"@ + decimal(m.height as nat) + "@"@ + decimal(m.refresh as nat) + " for output `"@ + name
        + "`"@
}

pub open spec fn disconnected_target_message(name: Seq<char>, target: Seq<char>) -> Seq<char> {
    "mirrored output `"@ + name + "` targets disconnected output `"@ + target + "`"@
}

pub open spec fn opt_cmd(cond: bool, cmd: Seq<char>) -> Seq<Seq<char>> {
    if cond {
        seq![cmd]
    } else {
        Seq::empty()
    }
}

/// Setting the mode, where the output is not in the planned mode: the mode
/// of the id that matched it, or an error where no mode matched.
pub open spec fn mode_cmds(o: KScreenOutput, d: OutputStateView, f: PlannedOutputFactsView, name: Seq<char>) -> Result<
    Seq<Seq<char>>,
    Seq<char>,
> {
    if current_mode_spec(o) != d.mode {
        match d.mode {
            None => Ok(Seq::empty()),
            Some(m) => match f.mode_id {
                Some(id) => Ok(seq!["output."@ + name + ".mode."@ + id]),
                None => Err(unresolved_mode_message(name, m)),
            },
        }
    } else {
        Ok(Seq::empty())
    }
}

/// Setting scale and rotation where they change, ending a mirror the plan
/// drops, and placing an output that mirrors nothing where it moves.
pub open spec fn tail_cmds(
    o: KScreenOutput,
    outs: Seq<KScreenOutput>,
    d: OutputStateView,
    f: PlannedOutputFactsView,
    name: Seq<char>,
) -> Seq<Seq<char>> {
    let p = "output."@ + name + "."@;
    opt_cmd(!f.scale_unchanged, p + "scale."@ + f.scale_text) + opt_cmd(
        transform_from_kscreen_spec(o.rotation) != d.transform,
        p + "rotation."@ + rotation_query_spec(d.transform),
    ) + opt_cmd(mirror_target_spec(o, outs, true) is Some && d.mirror_target is None, p + "mirror.none"@)
        + opt_cmd(
        d.mirror_target is None && o.pos != d.position,
        p + "position."@ + signed_decimal(d.position.x as int) + ","@ + signed_decimal(d.position.y as int),
    )
}

/// The commands that bring one planned, connected output to what the plan
/// asks: enable it, set its mode, scale and rotation, end a mirror it no
/// longer has, and place it where it does not mirror.
pub open spec fn update_one(
    plan: Seq<(Seq<char>, OutputStateView)>,
    outs: Seq<KScreenOutput>,
    facts: Facts,
    name: Seq<char>,
) -> Result<Seq<Seq<char>>, Seq<char>> {
    match (connected_last(outs, name), lookup(plan, name), lookup(facts, name)) {
        (Some(i), Some(d), Some(f)) => match mode_cmds(outs[i], d, f, name) {
            Err(e) => Err(e),
            Ok(mc) => Ok(
                opt_cmd(!outs[i].enabled, "output."@ + name + ".enable"@) + mc + tail_cmds(
                    outs[i],
                    outs,
                    d,
                    f,
                    name,
                ),
            ),
        },
        _ => Ok(Seq::empty()),
    }
}

/// The command that makes one planned output mirror its target, where the
/// plan changes what it mirrors to another output.
pub open spec fn mirror_one(
    plan: Seq<(Seq<char>, OutputStateView)>,
    outs: Seq<KScreenOutput>,
    name: Seq<char>,
) -> Result<Seq<Seq<char>>, Seq<char>> {
    match (connected_last(outs, name), lookup(plan, name)) {
        (Some(i), Some(d)) => if mirror_target_spec(outs[i], outs, true) != d.mirror_target {
            match d.mirror_target {
                Some(target) => match connected_last(outs, target) {
                    Some(j) => Ok(seq!["output."@ + name + ".mirror."@ + decimal(outs[j].id as nat)]),
                    None => Err(disconnected_target_message(name, target)),
                },
                None => Ok(Seq::empty()),
            }
        } else {
            Ok(Seq::empty())
        },
        _ => Ok(Seq::empty()),
    }
}

pub open spec fn update_all(
    plan: Seq<(Seq<char>, OutputStateView)>,
    outs: Seq<KScreenOutput>,
    facts: Facts,
    names: Seq<Seq<char>>,
) -> Result<Seq<Seq<char>>, Seq<char>>
    decreases names.len(),
{
    if names.len() == 0 {
        Ok(Seq::empty())
    } else {
        match update_all(plan, outs, facts, names.drop_last()) {
            Err(e) => Err(e),
            Ok(done) => match update_one(plan, outs, facts, names.last()) {
                Err(e) => Err(e),
                Ok(c) => Ok(done + c),
            },
        }
    }
}

pub open spec fn mirror_all(
    plan: Seq<(Seq<char>, OutputStateView)>,
    outs: Seq<KScreenOutput>,
    names: Seq<Seq<char>>,
) -> Result<Seq<Seq<char>>, Seq<char>>
    decreases names.len(),
{
    if names.len() == 0 {
        Ok(Seq::empty())
    } else {
        match mirror_all(plan, outs, names.drop_last()) {
            Err(e) => Err(e),
            Ok(done) => match mirror_one(plan, outs, names.last()) {
                Err(e) => Err(e),
                Ok(c) => Ok(done + c),
            },
        }
    }
}

/// The first of `names` that no connected output has.
pub open spec fn first_unconnected(outs: Seq<KScreenOutput>, names: Seq<Seq<char>>) -> Option<Seq<char>>
    decreases names.len(),
{
    if names.len() == 0 {
        None
    } else {
        match first_unconnected(outs, names.drop_last()) {
            Some(n) => Some(n),
            None => if connected_last(outs, names.last()) is None {
                Some(names.last())
            } else {
                None
            },
        }
    }
}

/// The arguments for `kscreen-doctor`: every planned output on must be
/// connected; then the connected outputs the plan turns off (by name), the
/// updates of the planned outputs on (by name), and their mirrors.
pub open spec fn apply_args_spec(
    plan: Seq<(Seq<char>, OutputStateView)>,
    outs: Seq<KScreenOutput>,
    facts: Facts,
) -> Result<Seq<Seq<char>>, Seq<char>> {
    let enabled = sort_by(enabled_names_upto(plan, plan.len() as int), str_lt_fn());
    match first_unconnected(outs, enabled) {
        Some(n) => Err(not_connected_message(n)),
        None => {
            let disable = disable_all(
                plan,
                outs,
                sort_by(connected_names_upto(outs, outs.len() as int), str_lt_fn()),
            );
            match update_all(plan, outs, facts, enabled) {
                Err(e) => Err(e),
                Ok(u) => match mirror_all(plan, outs, enabled) {
                    Err(e) => Err(e),
                    Ok(m) => Ok(disable + u + m),
                },
            }
        },
    }
}

fn connected_names(outs: &Vec<KScreenOutput>) -> (r: Vec<String>)
    ensures
        views(r@) == connected_names_upto(outs@, outs@.len() as int),
{
    let mut r: Vec<String> = Vec::new();
    let mut i: usize = 0;
    while i < outs.len()
        invariant
            i <= outs@.len(),
            views(r@) == connected_names_upto(outs@, i as int),
        decreases outs@.len() - i,
    {
        let o = &outs[i];
        if o.connected {
            if let Some(k) = find_connected(outs, o.name.as_str()) {
                if k == i {
                    let ghost before = r@;
                    r.push(o.name.clone());
                    assert(views(r@) =~= views(before).push(outs@[i as int].name@));
                }
            }
        }
        i += 1;
    }
    r
}

fn enabled_names(plan: &LayoutPlan) -> (r: Vec<String>)
    ensures
        views(r@) == enabled_names_upto(plan@.outputs, plan@.outputs.len() as int),
{
    let mut r: Vec<String> = Vec::new();
    let mut i: usize = 0;
    while i < plan.outputs.len()
        invariant
            i <= plan@.outputs.len(),
            views(r@) == enabled_names_upto(plan@.outputs, i as int),
        decreases plan@.outputs.len() - i,
    {
        let e = &plan.outputs[i];
        assert(plan@.outputs[i as int] == (e.0@, e.1@));
        if e.1.enabled {
            let ghost before = r@;
            r.push(e.0.clone());
            assert(views(r@) =~= views(before).push(e.0@));
        }
        i += 1;
    }
    r
}

fn command(name: &str, rest: &str) -> (r: String)
    ensures
        r@ == "output."@ + name@ + "."@ + rest@,
{
    let mut c = String::new();
    push_str(&mut c, "output.");
    push_str(&mut c, name);
    push_str(&mut c, ".");
    push_str(&mut c, rest);
    c
}

fn mode_command(o: &KScreenOutput, d: &OutputState, f: &PlannedOutputFacts, name: &str) -> (r: Result<
    Option<String>,
    String,
>)
    ensures
        match mode_cmds(*o, d@, f@, name@) {
            Ok(c) => r matches Ok(x) && c == (match x {
                Some(s) => seq![s@],
                None => Seq::<Seq<char>>::empty(),
            }),
            Err(e) => r matches Err(m) && m@ == e,
        },
{
    if current_mode_for_output(o) == d.mode {
        return Ok(None);
    }
    let m = match d.mode {
        Some(m) => m,
        None => return Ok(None),
    };
    match &f.mode_id {
        Some(id) => {
            let mut c = command(name, "mode.");
            push_str(&mut c, id.as_str());
            assert(c@ =~= "output."@ + name@ + ".mode."@ + id@) by {
                reveal_strlit(".");
                reveal_strlit("mode.");
                reveal_strlit(".mode.");
            }
            Ok(Some(c))
        },
        None => {
            let mut e = String::new();
            push_str(&mut e, "failed to resolve mode for output `");
            push_str(&mut e, name);
            push_str(&mut e, "`: no KScreen mode matches ");
            push_decimal(&mut e, m.width as u128);
            push_str(&mut e, "x");
            push_decimal(&mut e, m.height as u128);
            push_str(&mut e, "@");
            push_decimal(&mut e, m.refresh as u128);
            push_str(&mut e, " for output `");
            push_str(&mut e, name);
            push_str(&mut e, "`");
            assert(e@ =~= unresolved_mode_message(name@, m));
            Err(e)
        },
    }
}

fn push_if(commands: &mut Vec<String>, cond: bool, c: String)
    ensures
        views(final(commands)@) == views(old(commands)@) + opt_cmd(cond, c@),
{
    let ghost before = views(commands@);
    if cond {
        commands.push(c);
        assert(views(commands@) =~= before + seq![c@]);
    } else {
        assert(views(commands@) =~= before + Seq::<Seq<char>>::empty());
    }
}

fn push_tail_commands(
    commands: &mut Vec<String>,
    o: &KScreenOutput,
    outs: &Vec<KScreenOutput>,
    d: &OutputState,
    f: &PlannedOutputFacts,
    name: &str,
)
    ensures
        views(final(commands)@) == views(old(commands)@) + tail_cmds(*o, outs@, d@, f@, name@),
{
    let ghost before = views(commands@);
    let ghost p = "output."@ + name@ + "."@;
    let mut scale = command(name, "scale.");
    push_str(&mut scale, f.scale_text.as_str());
    assert(scale@ =~= p + "scale."@ + f.scale_text@);
    push_if(commands, !f.scale_unchanged, scale);
    let mut rotation = command(name, "rotation.");
    push_str(&mut rotation, rotation_query(d.transform));
    assert(rotation@ =~= p + "rotation."@ + rotation_query_spec(d.transform));
    push_if(commands, transform_from_kscreen(o.rotation) != d.transform, rotation);
    let current_mirror = mirror_target_name(o, outs, true);
    push_if(commands, current_mirror.is_some() && d.mirror_target.is_none(), command(name, "mirror.none"));
    let mut position = command(name, "position.");
    push_signed_decimal(&mut position, d.position.x as i64);
    push_str(&mut position, ",");
    push_signed_decimal(&mut position, d.position.y as i64);
    assert(position@ =~= p + "position."@ + signed_decimal(d.position.x as int) + ","@ + signed_decimal(
        d.position.y as int,
    ));
    push_if(commands, d.mirror_target.is_none() && o.pos != d.position, position);
    assert(views(commands@) =~= before + tail_cmds(*o, outs@, d@, f@, name@));
}

fn update_commands_for(
    plan: &LayoutPlan,
    outs: &Vec<KScreenOutput>,
    facts: &Vec<(String, PlannedOutputFacts)>,
    name: &str,
) -> (r: Result<Vec<String>, String>)
    ensures
        match update_one(plan@.outputs, outs@, crate::assoc::kv_views(facts@), name@) {
            Ok(c) => r matches Ok(v) && views(v@) == c,
            Err(e) => r matches Err(m) && m@ == e,
        },
{
    let i = match find_connected(outs, name) {
        Some(i) => i,
        None => return Ok(Vec::new()),
    };
    let d = match crate::assoc::assoc_get(&plan.outputs, name) {
        Some(d) => d,
        None => return Ok(Vec::new()),
    };
    let f = match crate::assoc::assoc_get(facts, name) {
        Some(f) => f,
        None => return Ok(Vec::new()),
    };
    let o = &outs[i];
    let mode = match mode_command(o, d, f, name) {
        Ok(m) => m,
        Err(e) => return Err(e),
    };
    let mut commands: Vec<String> = Vec::new();
    let enable = command(name, "enable");
    assert(enable@ =~= "output."@ + name@ + ".enable"@) by {
        reveal_strlit(".");
        reveal_strlit("enable");
        reveal_strlit(".enable");
    }
    push_if(&mut commands, !o.enabled, enable);
    let ghost first = views(commands@);
    if let Some(c) = mode {
        commands.push(c);
        assert(views(commands@) =~= first.push(c@));
    }
    let ghost second = views(commands@);
    push_tail_commands(&mut commands, o, outs, d, f, name);
    proof {
        let mc = mode_cmds(*o, d@, f@, name@)->Ok_0;
        assert(second =~= first + mc);
    }
    Ok(commands)
}

fn mirror_commands_for(
    plan: &LayoutPlan,
    outs: &Vec<KScreenOutput>,
    name: &str,
) -> (r: Result<Vec<String>, String>)
    ensures
        match mirror_one(plan@.outputs, outs@, name@) {
            Ok(c) => r matches Ok(v) && views(v@) == c,
            Err(e) => r matches Err(m) && m@ == e,
        },
{
    let i = match find_connected(outs, name) {
        Some(i) => i,
        None => return Ok(Vec::new()),
    };
    let d = match crate::assoc::assoc_get(&plan.outputs, name) {
        Some(d) => d,
        None => return Ok(Vec::new()),
    };
    let current = mirror_target_name(&outs[i], outs, true);
    let same = match (&current, &d.mirror_target) {
        (Some(a), Some(b)) => str_eq(a.as_str(), b.as_str()),
        (None, None) => true,
        _ => false,
    };
    if same {
        return Ok(Vec::new());
    }
    let target = match &d.mirror_target {
        Some(t) => t,
        None => return Ok(Vec::new()),
    };
    match find_connected(outs, target.as_str()) {
        Some(j) => {
            let mut c = command(name, "mirror.");
            push_decimal(&mut c, outs[j].id as u128);
            let mut v: Vec<String> = Vec::new();
            let ghost cv = c@;
            v.push(c);
            assert(cv =~= "output."@ + name@ + ".mirror."@ + decimal(outs@[j as int].id as nat)) by {
                reveal_strlit(".");
                reveal_strlit("mirror.");
                reveal_strlit(".mirror.");
            }
            assert(views(v@) =~= seq![cv]);
            Ok(v)
        },
        None => {
            let mut e = String::new();
            push_str(&mut e, "mirrored output `");
            push_str(&mut e, name);
            push_str(&mut e, "` targets disconnected output `");
            push_str(&mut e, target.as_str());
            push_str(&mut e, "`");
            assert(e@ =~= disconnected_target_message(name@, target@));
            Err(e)
        },
    }
}

fn append(commands: &mut Vec<String>, more: Vec<String>)
    ensures
        views(final(commands)@) == views(old(commands)@) + views(more@),
{
    let ghost before = views(commands@);
    let ghost m = views(more@);
    let mut k: usize = 0;
    while k < more.len()
        invariant
            m == views(more@),
            k <= more@.len(),
            views(commands@) == before + m.take(k as int),
        decreases more@.len() - k,
    {
        let c = crate::text::copy_string(&more[k]);
        let ghost prev = commands@;
        commands.push(c);
        assert(views(commands@) =~= views(prev).push(m[k as int]));
        assert(m.take(k + 1) =~= m.take(k as int).push(m[k as int]));
        k += 1;
    }
    assert(m.take(more@.len() as int) =~= m);
}

fn first_unconnected_at(outs: &Vec<KScreenOutput>, names: &Vec<String>) -> (r: Option<usize>)
    ensures
        match r {
            Some(i) => i < names@.len() && first_unconnected(outs@, views(names@)) == Some(names@[i as int]@),
            None => first_unconnected(outs@, views(names@)) is None,
        },
{
    let ghost ns = views(names@);
    let mut i: usize = 0;
    while i < names.len()
        invariant
            ns == views(names@),
            i <= names@.len(),
            first_unconnected(outs@, ns.take(i as int)) is None,
        decreases names@.len() - i,
    {
        assert(ns.take(i + 1).drop_last() =~= ns.take(i as int));
        assert(ns[i as int] == names@[i as int]@);
        if find_connected(outs, names[i].as_str()).is_none() {
            proof {
                lemma_first_unconnected_from(outs@, ns, i as int + 1);
            }
            return Some(i);
        }
        i += 1;
    }
    assert(ns.take(ns.len() as int) =~= ns);
    None
}

fn disable_commands(plan: &LayoutPlan, outs: &Vec<KScreenOutput>, names: &Vec<String>) -> (r: Vec<String>)
    ensures
        views(r@) == disable_all(plan@.outputs, outs@, views(names@)),
{
    let ghost cn = views(names@);
    let mut commands: Vec<String> = Vec::new();
    let mut k: usize = 0;
    while k < names.len()
        invariant
            cn == views(names@),
            k <= names@.len(),
            views(commands@) == disable_all(plan@.outputs, outs@, cn.take(k as int)),
        decreases names@.len() - k,
    {
        assert(cn.take(k + 1).drop_last() =~= cn.take(k as int));
        assert(cn[k as int] == names@[k as int]@);
        let name = names[k].as_str();
        let ghost prev = views(commands@);
        if let Some(j) = find_connected(outs, name) {
            let keep_on = match crate::assoc::assoc_get(&plan.outputs, name) {
                Some(d) => d.enabled,
                None => false,
            };
            if outs[j].enabled && !keep_on {
                let c = command(name, "disable");
                assert(c@ =~= "output."@ + name@ + ".disable"@) by {
                    reveal_strlit(".");
                    reveal_strlit("disable");
                    reveal_strlit(".disable");
                }
                let ghost before = commands@;
                commands.push(c);
                assert(views(commands@) =~= views(before).push(c@));
            }
        }
        assert(views(commands@) =~= prev + disable_one(plan@.outputs, outs@, cn[k as int]));
        k += 1;
    }
    assert(cn.take(cn.len() as int) =~= cn);
    commands
}

fn update_commands(
    plan: &LayoutPlan,
    outs: &Vec<KScreenOutput>,
    facts: &Vec<(String, PlannedOutputFacts)>,
    names: &Vec<String>,
) -> (r: Result<Vec<String>, String>)
    ensures
        match update_all(plan@.outputs, outs@, crate::assoc::kv_views(facts@), views(names@)) {
            Ok(c) => r matches Ok(v) && views(v@) == c,
            Err(e) => r matches Err(m) && m@ == e,
        },
{
    let ghost pv = plan@.outputs;
    let ghost fv = crate::assoc::kv_views(facts@);
    let ghost en = views(names@);
    let mut commands: Vec<String> = Vec::new();
    let mut u: usize = 0;
    assert(en.take(0) =~= Seq::<Seq<char>>::empty());
    assert(views(commands@) =~= Seq::<Seq<char>>::empty());
    while u < names.len()
        invariant
            en == views(names@),
            pv == plan@.outputs,
            fv == crate::assoc::kv_views(facts@),
            u <= names@.len(),
            update_all(pv, outs@, fv, en.take(u as int)) == Ok::<Seq<Seq<char>>, Seq<char>>(views(commands@)),
        decreases names@.len() - u,
    {
        assert(en.take(u + 1).drop_last() =~= en.take(u as int));
        assert(en[u as int] == names@[u as int]@);
        match update_commands_for(plan, outs, facts, names[u].as_str()) {
            Ok(more) => append(&mut commands, more),
            Err(e) => {
                proof {
                    lemma_update_fails_from(pv, outs@, fv, en, u as int + 1);
                }
                return Err(e);
            },
        }
        u += 1;
    }
    assert(en.take(en.len() as int) =~= en);
    Ok(commands)
}

fn mirror_commands(plan: &LayoutPlan, outs: &Vec<KScreenOutput>, names: &Vec<String>) -> (r: Result<
    Vec<String>,
    String,
>)
    ensures
        match mirror_all(plan@.outputs, outs@, views(names@)) {
            Ok(c) => r matches Ok(v) && views(v@) == c,
            Err(e) => r matches Err(m) && m@ == e,
        },
{
    let ghost pv = plan@.outputs;
    let ghost en = views(names@);
    let mut commands: Vec<String> = Vec::new();
    let mut w: usize = 0;
    assert(en.take(0) =~= Seq::<Seq<char>>::empty());
    assert(views(commands@) =~= Seq::<Seq<char>>::empty());
    while w < names.len()
        invariant
            en == views(names@),
            pv == plan@.outputs,
            w <= names@.len(),
            mirror_all(pv, outs@, en.take(w as int)) == Ok::<Seq<Seq<char>>, Seq<char>>(views(commands@)),
        decreases names@.len() - w,
    {
        assert(en.take(w + 1).drop_last() =~= en.take(w as int));
        assert(en[w as int] == names@[w as int]@);
        match mirror_commands_for(plan, outs, names[w].as_str()) {
            Ok(more) => append(&mut commands, more),
            Err(e) => {
                proof {
                    lemma_mirror_fails_from(pv, outs@, en, w as int + 1);
                }
                return Err(e);
            },
        }
        w += 1;
    }
    assert(en.take(en.len() as int) =~= en);
    Ok(commands)
}

/// The arguments that make `kscreen-doctor` apply the plan, or why it
/// cannot be applied. `facts` holds, under each output name, what the
/// floating-point comparisons found for the planned outputs.
pub fn build_apply_args(
    plan: &LayoutPlan,
    config: &KScreenConfig,
    facts: &Vec<(String, PlannedOutputFacts)>,
) -> (r: Result<Vec<String>, String>)
    ensures
        match apply_args_spec(plan@.outputs, config.outputs@, crate::assoc::kv_views(facts@)) {
            Ok(c) => r matches Ok(v) && views(v@) == c,
            Err(e) => r matches Err(m) && m@ == e,
        },
{
    let outs = &config.outputs;
    let enabled = sort_strings(enabled_names(plan));
    if let Some(i) = first_unconnected_at(outs, &enabled) {
        let mut e = String::new();
        push_str(&mut e, "output `");
        push_str(&mut e, enabled[i].as_str());
        push_str(&mut e, "` is not connected on this KScreen session");
        assert(e@ =~= not_connected_message(enabled@[i as int]@));
        return Err(e);
    }
    let names = sort_strings(connected_names(outs));
    let mut commands = disable_commands(plan, outs, &names);
    match update_commands(plan, outs, facts, &enabled) {
        Ok(more) => append(&mut commands, more),
        Err(e) => return Err(e),
    }
    match mirror_commands(plan, outs, &enabled) {
        Ok(more) => append(&mut commands, more),
        Err(e) => return Err(e),
    }
    Ok(commands)
}

proof fn lemma_first_unconnected_from(outs: Seq<KScreenOutput>, names: Seq<Seq<char>>, k: int)
    requires
        1 <= k <= names.len(),
        first_unconnected(outs, names.take(k)) is Some,
    ensures
        first_unconnected(outs, names) == first_unconnected(outs, names.take(k)),
    decreases names.len() - k,
{
    if k == names.len() {
        assert(names.take(k) =~= names);
    } else {
        assert(names.take(k + 1).drop_last() =~= names.take(k));
        lemma_first_unconnected_from(outs, names, k + 1);
    }
}

proof fn lemma_update_fails_from(
    plan: Seq<(Seq<char>, OutputStateView)>,
    outs: Seq<KScreenOutput>,
    facts: Facts,
    names: Seq<Seq<char>>,
    k: int,
)
    requires
        1 <= k <= names.len(),
        update_all(plan, outs, facts, names.take(k)) is Err,
    ensures
        update_all(plan, outs, facts, names) == update_all(plan, outs, facts, names.take(k)),
    decreases names.len() - k,
{
    if k == names.len() {
        assert(names.take(k) =~= names);
    } else {
        assert(names.take(k + 1).drop_last() =~= names.take(k));
        lemma_update_fails_from(plan, outs, facts, names, k + 1);
    }
}

proof fn lemma_mirror_fails_from(
    plan: Seq<(Seq<char>, OutputStateView)>,
    outs: Seq<KScreenOutput>,
    names: Seq<Seq<char>>,
    k: int,
)
    requires
        1 <= k <= names.len(),
        mirror_all(plan, outs, names.take(k)) is Err,
    ensures
        mirror_all(plan, outs, names) == mirror_all(plan, outs, names.take(k)),
    decreases names.len() - k,
{
    if k == names.len() {
        assert(names.take(k) =~= names);
    } else {
        assert(names.take(k + 1).drop_last() =~= names.take(k));
        lemma_mirror_fails_from(plan, outs, names, k + 1);
    }
}

pub open spec fn rejection_message(source: Seq<char>) -> Seq<char> {
    "KScreen rejected the configuration: "@ + source
}

/// The arguments, or the apply outcome that refuses the plan.
pub fn build_apply_args_or_rejection(
    plan: &LayoutPlan,
    config: &KScreenConfig,
    facts: &Vec<(String, PlannedOutputFacts)>,
) -> (r: Result<Vec<String>, ApplyResult>)
    ensures
        match apply_args_spec(plan@.outputs, config.outputs@, crate::assoc::kv_views(facts@)) {
            Ok(c) => r matches Ok(v) && views(v@) == c,
            Err(e) => r matches Err(a) && !a.success && a.failure == Some(ConfigFailureKind::Rejected)
                && a.applied_state is None && opt_view(a.message) == Some(rejection_message(e)),
        },
{
    match build_apply_args(plan, config, facts) {
        Ok(v) => Ok(v),
        Err(e) => {
            let mut m = String::new();
            push_str(&mut m, "KScreen rejected the configuration: ");
            push_str(&mut m, e.as_str());
            Err(ApplyResult::failed(Some(ConfigFailureKind::Rejected), Some(m)))
        },
    }
}

pub open spec fn dry_run_message(changes: nat) -> Seq<char> {
    "KScreen does not provide a dry-run API; "@ + decimal(changes) + " output changes were planned"@
}

/// KScreen cannot test a plan: the verdict says how many outputs it plans.
pub fn validation_unsupported(plan: &LayoutPlan) -> (r: TestResult)
    ensures
        !r.success,
        r.status == ValidationStatus::Unsupported,
        r.failure is None,
        opt_view(r.message) == Some(dry_run_message(plan.outputs@.len())),
{
    let mut m = String::new();
    push_str(&mut m, "KScreen does not provide a dry-run API; ");
    push_decimal(&mut m, plan.outputs.len() as u128);
    push_str(&mut m, " output changes were planned");
    TestResult::unsupported(Some(m))
}

/// The outcome when the configuration already is what the plan asks:
/// nothing to run, and the outputs as they are.
pub fn already_applied(config: &KScreenConfig) -> (r: ApplyResult)
    requires
        outputs_fit(config.outputs@),
    ensures
        r.success,
        r.failure is None,
        opt_view(r.message) == Some("configuration already matches current state"@),
        r.applied_state matches Some(t) && t@ == export_spec(config.outputs@, config.outputs@.len() as int),
{
    ApplyResult::applied(
        Some("configuration already matches current state".to_owned()),
        Some(export_kscreen_topology(config)),
    )
}

/// The outcome after `kscreen-doctor` ran `changes` arguments: applied,
/// with the outputs read back as they now are.
pub fn applied_after_commands(changes: usize, applied: &KScreenConfig) -> (r: ApplyResult)
    requires
        outputs_fit(applied.outputs@),
    ensures
        r.success,
        r.failure is None,
        opt_view(r.message) == Some("KScreen applied "@ + decimal(changes as nat) + " display changes"@),
        r.applied_state matches Some(t) && t@ == export_spec(applied.outputs@, applied.outputs@.len() as int),
{
    let mut m = String::new();
    push_str(&mut m, "KScreen applied ");
    push_decimal(&mut m, changes as u128);
    push_str(&mut m, " display changes");
    ApplyResult::applied(Some(m), Some(export_kscreen_topology(applied)))
}

/// What the command printed, as a failure report quotes it: its trimmed
/// standard output and error output where they say anything, else its exit
/// status.
pub open spec fn command_output_description(stdout: Seq<char>, stderr: Seq<char>, status: Seq<char>) -> Seq<char> {
    let o = crate::text::trim(stdout);
    let e = crate::text::trim(stderr);
    if o.len() == 0 && e.len() == 0 {
        "exit status "@ + status
    } else if e.len() == 0 {
        "stdout: "@ + o
    } else if o.len() == 0 {
        "stderr: "@ + e
    } else {
        "stdout: "@ + o + "; stderr: "@ + e
    }
}

pub fn describe_command_output(stdout: &str, stderr: &str, status: &str) -> (r: String)
    ensures
        r@ == command_output_description(stdout@, stderr@, status@),
{
    let o = crate::text::trimmed(stdout);
    let e = crate::text::trimmed(stderr);
    let no_out = crate::engine::is_blank(stdout);
    let no_err = crate::engine::is_blank(stderr);
    let mut r = String::new();
    if no_out && no_err {
        push_str(&mut r, "exit status ");
        push_str(&mut r, status);
    } else if no_err {
        push_str(&mut r, "stdout: ");
        push_str(&mut r, o.as_str());
    } else if no_out {
        push_str(&mut r, "stderr: ");
        push_str(&mut r, e.as_str());
    } else {
        push_str(&mut r, "stdout: ");
        push_str(&mut r, o.as_str());
        push_str(&mut r, "; stderr: ");
        push_str(&mut r, e.as_str());
    }
    r
}

/// The outcome where `kscreen-doctor` refused the arguments.
pub fn command_rejection(command_label: &str, description: &str) -> (r: ApplyResult)
    ensures
        !r.success,
        r.failure == Some(ConfigFailureKind::Rejected),
        r.applied_state is None,
        opt_view(r.message) == Some("`"@ + command_label@ + "` rejected the configuration: "@ + description@),
{
    let mut m = String::new();
    push_str(&mut m, "`");
    push_str(&mut m, command_label);
    push_str(&mut m, "` rejected the configuration: ");
    push_str(&mut m, description);
    ApplyResult::failed(Some(ConfigFailureKind::Rejected), Some(m))
}

} // verus!
