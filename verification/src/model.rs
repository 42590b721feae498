//! The data model: outputs, their modes and placement, and the topology of
//! all outputs that a backend reports.
use vstd::prelude::*;

use crate::assoc::{distinct_names, find_key, lookup, name_index, names_of, view_names};
use crate::model::identity::OutputIdentityView;
use crate::text::{
    char_is_control, chars_of, decimal, is_control_char, opt_view, push_decimal, push_str, sort_by,
    sort_strings, str_lt_fn, views,
};

pub mod backend;
pub mod identity;


pub use backend::{BackendKind, Capabilities};
pub use identity::{identities_match, normalized_identity_value, OutputIdentity};

verus! {

pub const MAX_TOPOLOGY_OUTPUTS: usize = 64;

pub const MAX_OUTPUT_MODES: usize = 256;

pub const MAX_TOPOLOGY_STRING_BYTES: usize = 512;

pub const MAX_MODE_DIMENSION: u32 = 32768;

pub const MAX_REFRESH_MILLIHZ: u32 = 2000000;

pub const MAX_ABS_POSITION: i32 = 1000000;

/// Bit pattern (IEEE-754 binary64) of the scale factor 1.
pub const DEFAULT_SCALE: u64 = 0x3ff0_0000_0000_0000;

/// Bit pattern (IEEE-754 binary64) of the smallest accepted scale factor, 0.05.
pub const MIN_SCALE_BITS: u64 = 0x3fa9_9999_9999_999a;

/// Bit pattern (IEEE-754 binary64) of the largest accepted scale factor, 100.
pub const MAX_SCALE_BITS: u64 = 0x4059_0000_0000_0000;

// ---------------------------------------------------------------------------
// Scale factors, held as binary64 bit patterns
// ---------------------------------------------------------------------------

pub open spec fn scale_is_nan(b: u64) -> bool {
    (b & 0x7ff0_0000_0000_0000u64) == 0x7ff0_0000_0000_0000u64 && (b & 0x000f_ffff_ffff_ffffu64)
        != 0
}

pub open spec fn scale_is_zero(b: u64) -> bool {
    (b & 0x7fff_ffff_ffff_ffffu64) == 0
}

/// Numeric equality of two binary64 values given by their bit patterns: NaN
/// equals nothing, and the two zeros are equal.
pub open spec fn scales_equal(a: u64, b: u64) -> bool {
    !scale_is_nan(a) && !scale_is_nan(b) && (a == b || (scale_is_zero(a) && scale_is_zero(b)))
}

/// A finite scale factor in `0.05..=100`. Non-negative finite binary64 values
/// are ordered as their bit patterns, and every negative, infinite or NaN
/// pattern lies above the pattern of 100.
pub open spec fn scale_in_limits(b: u64) -> bool {
    MIN_SCALE_BITS <= b <= MAX_SCALE_BITS
}

pub fn scales_eq(a: u64, b: u64) -> (r: bool)
    ensures
        r == scales_equal(a, b),
{
    let a_nan = (a & 0x7ff0_0000_0000_0000u64) == 0x7ff0_0000_0000_0000u64 && (a
        & 0x000f_ffff_ffff_ffffu64) != 0;
    let b_nan = (b & 0x7ff0_0000_0000_0000u64) == 0x7ff0_0000_0000_0000u64 && (b
        & 0x000f_ffff_ffff_ffffu64) != 0;
    let a_zero = (a & 0x7fff_ffff_ffff_ffffu64) == 0;
    let b_zero = (b & 0x7fff_ffff_ffff_ffffu64) == 0;
    !a_nan && !b_nan && (a == b || (a_zero && b_zero))
}

// ---------------------------------------------------------------------------
// Presets, positions, modes, resolutions, transforms
// ---------------------------------------------------------------------------

#[derive(Debug, Clone, Copy, PartialEq, Eq, Structural)]
pub enum VirtualPreset {
    Off,
    External,
    Builtin,
    Common,
    Largest,
    Mirror,
    Horizontal,
    HorizontalReverse,
    Vertical,
    VerticalReverse,
}

pub open spec fn preset_label(p: VirtualPreset) -> Seq<char> {
    match p {
        VirtualPreset::Off => "off"@,
        VirtualPreset::External => "external"@,
        VirtualPreset::Builtin => "builtin"@,
        VirtualPreset::Common => "common"@,
        VirtualPreset::Largest => "largest"@,
        VirtualPreset::Mirror => "mirror"@,
        VirtualPreset::Horizontal => "horizontal"@,
        VirtualPreset::HorizontalReverse => "horizontal-reverse"@,
        VirtualPreset::Vertical => "vertical"@,
        VirtualPreset::VerticalReverse => "vertical-reverse"@,
    }
}

impl VirtualPreset {
    pub fn as_str(self) -> (r: &'static str)
        ensures
            r@ == preset_label(self),
    {
        match self {
            VirtualPreset::Off => "off",
            VirtualPreset::External => "external",
            VirtualPreset::Builtin => "builtin",
            VirtualPreset::Common => "common",
            VirtualPreset::Largest => "largest",
            VirtualPreset::Mirror => "mirror",
            VirtualPreset::Horizontal => "horizontal",
            VirtualPreset::HorizontalReverse => "horizontal-reverse",
            VirtualPreset::Vertical => "vertical",
            VirtualPreset::VerticalReverse => "vertical-reverse",
        }
    }

    pub fn is_reverse(self) -> (r: bool)
        ensures
            r == (self == VirtualPreset::HorizontalReverse || self
                == VirtualPreset::VerticalReverse),
    {
        match self {
            VirtualPreset::HorizontalReverse | VirtualPreset::VerticalReverse => true,
            _ => false,
        }
    }
}

#[derive(Debug, Clone, Copy, PartialEq, Eq, Structural)]
pub struct Position {
    pub x: i32,
    pub y: i32,
}

impl Position {
    pub fn new(x: i32, y: i32) -> (r: Self)
        ensures
            r.x == x,
            r.y == y,
    {
        Position { x, y }
    }
}

impl Default for Position {
    fn default() -> (r: Self)
        ensures
            r.x == 0 && r.y == 0,
    {
        Position { x: 0, y: 0 }
    }
}

#[derive(Debug, Clone, Copy, PartialEq, Eq, Structural)]
pub struct Mode {
    pub width: u32,
    pub height: u32,
    pub refresh: u32,
}

pub open spec fn mode_error(m: Mode, name: Seq<char>) -> Option<Seq<char>> {
    if m.width == 0 || m.height == 0 || m.width > MAX_MODE_DIMENSION || m.height
        > MAX_MODE_DIMENSION || m.refresh > MAX_REFRESH_MILLIHZ {
        Some(
            "output "@ + name + " reported invalid mode "@ + decimal(m.width as nat) + "x"@ + decimal(
                m.height as nat,
            ) + "@"@ + decimal(m.refresh as nat),
        )
    } else {
        None
    }
}

impl Mode {
    pub fn new(width: u32, height: u32, refresh: u32) -> (r: Self)
        ensures
            r.width == width,
            r.height == height,
            r.refresh == refresh,
    {
        Mode { width, height, refresh }
    }

    /// Rejects zero or oversized dimensions and refresh rates over the limit.
    pub fn validate_limits(&self, name: &str) -> (r: Result<(), String>)
        ensures
            match r {
                Ok(()) => mode_error(*self, name@) is None,
                Err(e) => mode_error(*self, name@) == Some(e@),
            },
    {
        if self.width == 0 || self.height == 0 || self.width > MAX_MODE_DIMENSION || self.height
            > MAX_MODE_DIMENSION || self.refresh > MAX_REFRESH_MILLIHZ {
            let mut message = "output ".to_owned();
            push_str(&mut message, name);
            push_str(&mut message, " reported invalid mode ");
            push_decimal(&mut message, self.width as u128);
            push_str(&mut message, "x");
            push_decimal(&mut message, self.height as u128);
            push_str(&mut message, "@");
            push_decimal(&mut message, self.refresh as u128);
            return Err(message);
        }
        Ok(())
    }
}

impl Default for Mode {
    fn default() -> (r: Self)
        ensures
            r.width == 0 && r.height == 0 && r.refresh == 0,
    {
        Mode { width: 0, height: 0, refresh: 0 }
    }
}

#[derive(Debug, Clone, Copy, PartialEq, Eq, Structural)]
pub struct Resolution {
    pub width: u32,
    pub height: u32,
}

impl Resolution {
    pub fn new(width: u32, height: u32) -> (r: Self)
        ensures
            r.width == width,
            r.height == height,
    {
        Resolution { width, height }
    }
}

#[derive(Debug, Clone, Copy, PartialEq, Eq, Structural)]
pub enum Transform {
    Normal,
    Rot90,
    Rot180,
    Rot270,
    Flipped,
    Flipped90,
    Flipped180,
    Flipped270,
}

impl Default for Transform {
    fn default() -> (r: Self)
        ensures
            r == Transform::Normal,
    {
        Transform::Normal
    }
}

pub open spec fn transform_label(t: Transform) -> Seq<char> {
    match t {
        Transform::Normal => "normal"@,
        Transform::Rot90 => "90"@,
        Transform::Rot180 => "180"@,
        Transform::Rot270 => "270"@,
        Transform::Flipped => "flipped"@,
        Transform::Flipped90 => "flipped-90"@,
        Transform::Flipped180 => "flipped-180"@,
        Transform::Flipped270 => "flipped-270"@,
    }
}

impl Transform {
    /// Whether the transform swaps width and height.
    pub fn swaps_axes(self) -> (r: bool)
        ensures
            r == (self == Transform::Rot90 || self == Transform::Rot270 || self
                == Transform::Flipped90 || self == Transform::Flipped270),
    {
        match self {
            Transform::Rot90 | Transform::Rot270 | Transform::Flipped90 | Transform::Flipped270 => true,
            _ => false,
        }
    }

    /// The label by which the transform is displayed.
    pub fn display_label(self) -> (r: &'static str)
        ensures
            r@ == transform_label(self),
    {
        match self {
            Transform::Normal => "normal",
            Transform::Rot90 => "90",
            Transform::Rot180 => "180",
            Transform::Rot270 => "270",
            Transform::Flipped => "flipped",
            Transform::Flipped90 => "flipped-90",
            Transform::Flipped180 => "flipped-180",
            Transform::Flipped270 => "flipped-270",
        }
    }
}

// ---------------------------------------------------------------------------
// String limits
// ---------------------------------------------------------------------------

/// The error for a topology string that is too long (in UTF-8 bytes) or holds
/// control characters.
pub open spec fn validate_string_error(label: Seq<char>, value: Seq<char>) -> Option<Seq<char>> {
    let bytes = crate::text::utf8_len(value);
    if bytes > MAX_TOPOLOGY_STRING_BYTES {
        Some(
            label + " is "@ + decimal(bytes) + " bytes, limit is "@ + decimal(
                MAX_TOPOLOGY_STRING_BYTES as nat,
            ),
        )
    } else if exists|i: int| 0 <= i < value.len() && is_control_char(#[trigger] value[i]) {
        Some(label + " contains control characters"@)
    } else {
        None
    }
}

pub fn validate_string(label: &str, value: &str) -> (r: Result<(), String>)
    ensures
        match r {
            Ok(()) => validate_string_error(label@, value@) is None,
            Err(e) => validate_string_error(label@, value@) == Some(e@),
        },
{
    let chars = chars_of(value);
    let bytes = crate::text::utf8_len_of(&chars);
    if bytes > MAX_TOPOLOGY_STRING_BYTES as u128 {
        let mut message = label.to_owned();
        push_str(&mut message, " is ");
        push_decimal(&mut message, bytes);
        push_str(&mut message, " bytes, limit is ");
        push_decimal(&mut message, MAX_TOPOLOGY_STRING_BYTES as u128);
        return Err(message);
    }
    let mut i: usize = 0;
    while i < chars.len()
        invariant
            chars@ == value@,
            crate::text::utf8_len(value@) <= MAX_TOPOLOGY_STRING_BYTES,
            i <= chars@.len(),
            forall|j: int| 0 <= j < i ==> !is_control_char(#[trigger] chars@[j]),
        decreases chars@.len() - i,
    {
        if char_is_control(chars[i]) {
            assert(is_control_char(value@[i as int]));
            let mut message = label.to_owned();
            push_str(&mut message, " contains control characters");
            return Err(message);
        }
        i += 1;
    }
    Ok(())
}

/// The characters `v[from..to]`.
pub fn sub_chars(v: &Vec<char>, from: usize, to: usize) -> (r: Vec<char>)
    requires
        from <= to <= v@.len(),
    ensures
        r@ == v@.subrange(from as int, to as int),
{
    let mut r: Vec<char> = Vec::new();
    let mut i = from;
    while i < to
        invariant
            from <= i <= to <= v@.len(),
            r@ == v@.subrange(from as int, i as int),
        decreases to - i,
    {
        r.push(v[i]);
        i += 1;
        assert(r@ =~= v@.subrange(from as int, i as int));
    }
    r
}

// ---------------------------------------------------------------------------
// Output state
// ---------------------------------------------------------------------------

#[derive(Debug, PartialEq)]
pub struct OutputState {
    pub identity: OutputIdentity,
    pub enabled: bool,
    pub mode: Option<Mode>,
    pub available_modes: Vec<Mode>,
    pub position: Position,
    /// Scale factor as the bit pattern of an IEEE-754 binary64 value.
    pub scale: u64,
    pub scaled_resolution: Option<Resolution>,
    pub transform: Transform,
    pub mirror_target: Option<String>,
    /// Backend-specific data, as JSON text.
    pub backend_data: Option<String>,
}

pub ghost struct OutputStateView {
    pub identity: OutputIdentityView,
    pub enabled: bool,
    pub mode: Option<Mode>,
    pub available_modes: Seq<Mode>,
    pub position: Position,
    pub scale: u64,
    pub scaled_resolution: Option<Resolution>,
    pub transform: Transform,
    pub mirror_target: Option<Seq<char>>,
    pub backend_data: Option<Seq<char>>,
}

impl View for OutputState {
    type V = OutputStateView;

    open spec fn view(&self) -> OutputStateView {
        OutputStateView {
            identity: self.identity@,
            enabled: self.enabled,
            mode: self.mode,
            available_modes: self.available_modes@,
            position: self.position,
            scale: self.scale,
            scaled_resolution: self.scaled_resolution,
            transform: self.transform,
            mirror_target: opt_view(self.mirror_target),
            backend_data: opt_view(self.backend_data),
        }
    }
}

pub fn copy_modes(modes: &Vec<Mode>) -> (r: Vec<Mode>)
    ensures
        r@ == modes@,
{
    let mut r: Vec<Mode> = Vec::new();
    let mut i: usize = 0;
    while i < modes.len()
        invariant
            i <= modes@.len(),
            r@ == modes@.take(i as int),
        decreases modes@.len() - i,
    {
        r.push(modes[i]);
        i += 1;
        assert(r@ =~= modes@.take(i as int));
    }
    assert(modes@.take(modes@.len() as int) =~= modes@);
    r
}

impl Clone for OutputState {
    fn clone(&self) -> (r: Self)
        ensures
            r@ == self@,
    {
        OutputState {
            identity: self.identity.clone(),
            enabled: self.enabled,
            mode: self.mode,
            available_modes: copy_modes(&self.available_modes),
            position: self.position,
            scale: self.scale,
            scaled_resolution: self.scaled_resolution,
            transform: self.transform,
            mirror_target: crate::text::copy_opt_string(&self.mirror_target),
            backend_data: crate::text::copy_opt_string(&self.backend_data),
        }
    }
}

/// A topology limit that an output breaks. A scale that is out of range is
/// reported with its bit pattern; the other violations come with their message.
#[derive(Debug, PartialEq)]
pub enum LimitViolation {
    Message(String),
    InvalidScale { output: String, scale: u64 },
}

pub enum LimitViolationView {
    Message(Seq<char>),
    InvalidScale { output: Seq<char>, scale: u64 },
}

impl LimitViolation {
    pub open spec fn view_of(self) -> LimitViolationView {
        match self {
            LimitViolation::Message(m) => LimitViolationView::Message(m@),
            LimitViolation::InvalidScale { output, scale } => LimitViolationView::InvalidScale {
                output: output@,
                scale,
            },
        }
    }
}

pub open spec fn opt_mode_seq(m: Option<Mode>) -> Seq<Mode> {
    match m {
        Some(x) => seq![x],
        None => Seq::empty(),
    }
}

/// The error of the first mode in `modes` that breaks the limits.
pub open spec fn first_mode_error(modes: Seq<Mode>, name: Seq<char>) -> Option<Seq<char>>
    decreases modes.len(),
{
    if modes.len() == 0 {
        None
    } else {
        match mode_error(modes[0], name) {
            Some(e) => Some(e),
            None => first_mode_error(modes.drop_first(), name),
        }
    }
}

pub open spec fn position_out_of_range(p: Position) -> bool {
    p.x > MAX_ABS_POSITION || p.x < -MAX_ABS_POSITION || p.y > MAX_ABS_POSITION || p.y
        < -MAX_ABS_POSITION
}

pub open spec fn is_real_output(o: OutputStateView) -> bool {
    !o.identity.is_ignored && !o.identity.is_virtual
}

impl OutputStateView {
    /// The first limit that this output (reported under `name`) breaks.
    pub open spec fn limits_violation(self, name: Seq<char>) -> Option<LimitViolationView> {
        if self.identity.limits_error(name) is Some {
            Some(LimitViolationView::Message(self.identity.limits_error(name)->0))
        } else if self.available_modes.len() > MAX_OUTPUT_MODES {
            Some(
                LimitViolationView::Message(
                    "output "@ + name + " reported "@ + decimal(self.available_modes.len())
                        + " modes, limit is "@ + decimal(MAX_OUTPUT_MODES as nat),
                ),
            )
        } else if first_mode_error(self.available_modes + opt_mode_seq(self.mode), name) is Some {
            Some(
                LimitViolationView::Message(
                    first_mode_error(self.available_modes + opt_mode_seq(self.mode), name)->0,
                ),
            )
        } else if !scale_in_limits(self.scale) {
            Some(LimitViolationView::InvalidScale { output: name, scale: self.scale })
        } else if position_out_of_range(self.position) {
            Some(
                LimitViolationView::Message(
                    "output "@ + name + " reported out-of-range position"@,
                ),
            )
        } else if self.mirror_target is Some && validate_string_error(
            "mirror target"@,
            self.mirror_target->0,
        ) is Some {
            Some(
                LimitViolationView::Message(
                    validate_string_error("mirror target"@, self.mirror_target->0)->0,
                ),
            )
        } else {
            None
        }
    }

    /// The layout-relevant part of two outputs agrees.
    pub open spec fn same_layout_spec(self, other: OutputStateView) -> bool {
        &&& self.enabled == other.enabled
        &&& self.mode == other.mode
        &&& self.position == other.position
        &&& scales_equal(self.scale, other.scale)
        &&& self.transform == other.transform
        &&& self.mirror_target == other.mirror_target
    }

    pub open spec fn is_default_for(self, connector: Seq<char>) -> bool {
        &&& self.identity.connector == Some(connector)
        &&& self.identity.edid_hash is None
        &&& self.identity.make is None
        &&& self.identity.model is None
        &&& self.identity.serial is None
        &&& self.identity.description is None
        &&& !self.identity.is_virtual
        &&& !self.identity.is_ignored
        &&& !self.enabled
        &&& self.mode is None
        &&& self.available_modes.len() == 0
        &&& self.position == Position { x: 0, y: 0 }
        &&& self.scale == DEFAULT_SCALE
        &&& self.scaled_resolution is None
        &&& self.transform == Transform::Normal
        &&& self.mirror_target is None
        &&& self.backend_data is None
    }
}

impl OutputState {
    /// A disabled output with only its connector known.
    pub fn new(name: &str) -> (r: Self)
        ensures
            r@.is_default_for(name@),
    {
        OutputState {
            identity: OutputIdentity::new(name),
            enabled: false,
            mode: None,
            available_modes: Vec::new(),
            position: Position { x: 0, y: 0 },
            scale: DEFAULT_SCALE,
            scaled_resolution: None,
            transform: Transform::Normal,
            mirror_target: None,
            backend_data: None,
        }
    }

    /// Whether two outputs are laid out alike (mode inventory and backend data aside).
    pub fn same_layout_as(&self, other: &OutputState) -> (r: bool)
        ensures
            r == self@.same_layout_spec(other@),
    {
        self.enabled == other.enabled && self.mode == other.mode && self.position == other.position
            && scales_eq(self.scale, other.scale) && self.transform == other.transform && opt_str_eq(
            &self.mirror_target,
            &other.mirror_target,
        )
    }

    /// Checks the output reported under `name` against the topology limits.
    pub fn validate_limits(&self, name: &str) -> (r: Result<(), LimitViolation>)
        ensures
            match r {
                Ok(()) => self@.limits_violation(name@) is None,
                Err(e) => self@.limits_violation(name@) == Some(e.view_of()),
            },
    {
        match self.identity.validate_limits(name) {
            Err(e) => {
                return Err(LimitViolation::Message(e));
            },
            Ok(()) => {},
        }
        if self.available_modes.len() > MAX_OUTPUT_MODES {
            let mut message = "output ".to_owned();
            push_str(&mut message, name);
            push_str(&mut message, " reported ");
            push_decimal(&mut message, self.available_modes.len() as u128);
            push_str(&mut message, " modes, limit is ");
            push_decimal(&mut message, MAX_OUTPUT_MODES as u128);
            return Err(LimitViolation::Message(message));
        }
        let mut modes = copy_modes(&self.available_modes);
        if let Some(m) = self.mode {
            modes.push(m);
        }
        assert(modes@ =~= self.available_modes@ + opt_mode_seq(self.mode));
        let ghost all = modes@;
        assert(all.skip(0) =~= all);
        let mut i: usize = 0;
        while i < modes.len()
            invariant
                modes@ == all,
                all == self@.available_modes + opt_mode_seq(self@.mode),
                self@.identity.limits_error(name@) is None,
                self@.available_modes.len() <= MAX_OUTPUT_MODES,
                i <= all.len(),
                first_mode_error(all, name@) == first_mode_error(all.skip(i as int), name@),
            decreases all.len() - i,
        {
            let ghost rest = all.skip(i as int);
            assert(rest[0] == all[i as int]);
            assert(rest.drop_first() =~= all.skip(i + 1));
            match modes[i].validate_limits(name) {
                Err(e) => {
                    assert(first_mode_error(rest, name@) == Some(e@));
                    assert(first_mode_error(all, name@) == Some(e@));
                    return Err(LimitViolation::Message(e));
                },
                Ok(()) => {},
            }
            i += 1;
        }
        assert(all.skip(all.len() as int).len() == 0);
        if !(MIN_SCALE_BITS <= self.scale && self.scale <= MAX_SCALE_BITS) {
            return Err(LimitViolation::InvalidScale { output: name.to_owned(), scale: self.scale });
        }
        let x = self.position.x;
        let y = self.position.y;
        if x > MAX_ABS_POSITION || x < -MAX_ABS_POSITION || y > MAX_ABS_POSITION || y
            < -MAX_ABS_POSITION {
            let mut message = "output ".to_owned();
            push_str(&mut message, name);
            push_str(&mut message, " reported out-of-range position");
            return Err(LimitViolation::Message(message));
        }
        if let Some(target) = &self.mirror_target {
            match validate_string("mirror target", target.as_str()) {
                Err(e) => {
                    return Err(LimitViolation::Message(e));
                },
                Ok(()) => {},
            }
        }
        Ok(())
    }
}

pub fn opt_str_eq(a: &Option<String>, b: &Option<String>) -> (r: bool)
    ensures
        r == (opt_view(*a) == opt_view(*b)),
{
    match (a, b) {
        (Some(x), Some(y)) => *x == *y,
        (None, None) => true,
        _ => false,
    }
}

// ---------------------------------------------------------------------------
// Topology
// ---------------------------------------------------------------------------

/// All outputs that a backend reports, by output name.
#[derive(Debug, PartialEq)]
pub struct Topology {
    pub outputs: Vec<(String, OutputState)>,
}

/// The entries as plain values.
pub open spec fn entry_views(s: Seq<(String, OutputState)>) -> Seq<(Seq<char>, OutputStateView)> {
    s.map_values(|e: (String, OutputState)| (e.0@, e.1@))
}

impl View for Topology {
    type V = Seq<(Seq<char>, OutputStateView)>;

    open spec fn view(&self) -> Seq<(Seq<char>, OutputStateView)> {
        entry_views(self.outputs@)
    }
}

pub fn copy_entries(s: &Vec<(String, OutputState)>) -> (r: Vec<(String, OutputState)>)
    ensures
        entry_views(r@) == entry_views(s@),
{
    let mut r: Vec<(String, OutputState)> = Vec::new();
    let mut i: usize = 0;
    while i < s.len()
        invariant
            i <= s@.len(),
            r@.len() == i,
            forall|j: int| 0 <= j < i ==> (#[trigger] r@[j]).0@ == s@[j].0@ && r@[j].1@ == s@[j].1@,
        decreases s@.len() - i,
    {
        let name = s[i].0.clone();
        let state = s[i].1.clone();
        assert(name@ == s@[i as int].0@);
        assert(state@ == s@[i as int].1@);
        r.push((name, state));
        i += 1;
    }
    assert(entry_views(r@) =~= entry_views(s@));
    r
}

/// Output name and on/off state, as the topology fingerprint lists them.
pub open spec fn on_off_part(e: (Seq<char>, OutputStateView)) -> Seq<char> {
    e.0 + (if e.1.enabled {
        ":on"@
    } else {
        ":off"@
    })
}

pub open spec fn on_off_parts(s: Seq<(Seq<char>, OutputStateView)>) -> Seq<Seq<char>> {
    s.map_values(|e: (Seq<char>, OutputStateView)| on_off_part(e))
}

/// The primary keys of the real (neither virtual nor ignored) outputs, in order.
pub open spec fn real_output_keys(s: Seq<(Seq<char>, OutputStateView)>) -> Seq<Seq<char>>
    decreases s.len(),
{
    if s.len() == 0 {
        Seq::empty()
    } else {
        let rest = real_output_keys(s.drop_last());
        if is_real_output(s.last().1) {
            rest.push(s.last().1.identity.primary_key_spec())
        } else {
            rest
        }
    }
}

/// The setup fingerprint: sorted primary keys of the real outputs, joined by `;`.
pub open spec fn setup_fingerprint_of(s: Seq<(Seq<char>, OutputStateView)>) -> Seq<char> {
    crate::text::join(sort_by(real_output_keys(s), str_lt_fn()), ";"@)
}

proof fn lemma_real_keys_update(s: Seq<(Seq<char>, OutputStateView)>, i: int, e: (Seq<char>, OutputStateView))
    requires
        0 <= i < s.len(),
        e.1.identity == s[i].1.identity,
    ensures
        real_output_keys(s.update(i, e)) == real_output_keys(s),
    decreases s.len(),
{
    let u = s.update(i, e);
    if i == s.len() - 1 {
        assert(u.drop_last() =~= s.drop_last());
    } else {
        assert(u.drop_last() =~= s.drop_last().update(i, e));
        lemma_real_keys_update(s.drop_last(), i, e);
    }
}

proof fn lemma_real_keys_insert(s: Seq<(Seq<char>, OutputStateView)>, j: int, e: (Seq<char>, OutputStateView))
    requires
        0 <= j <= s.len(),
        !is_real_output(e.1),
    ensures
        real_output_keys(s.insert(j, e)) == real_output_keys(s),
    decreases s.len(),
{
    let u = s.insert(j, e);
    if j == s.len() {
        assert(u.drop_last() =~= s);
    } else {
        assert(u.drop_last() =~= s.drop_last().insert(j, e));
        lemma_real_keys_insert(s.drop_last(), j, e);
    }
}

/// The setup fingerprint depends on which outputs are connected, not on
/// how they are laid out: an output whose identity stays the same may be
/// renamed, moved, turned on or off, or given another mode or scale.
pub proof fn lemma_setup_fingerprint_ignores_layout(
    s: Seq<(Seq<char>, OutputStateView)>,
    i: int,
    e: (Seq<char>, OutputStateView),
)
    requires
        0 <= i < s.len(),
        e.1.identity == s[i].1.identity,
    ensures
        setup_fingerprint_of(s.update(i, e)) == setup_fingerprint_of(s),
{
    lemma_real_keys_update(s, i, e);
}

/// Virtual and ignored outputs do not count toward the setup fingerprint:
/// adding one, anywhere, leaves it as it was.
pub proof fn lemma_setup_fingerprint_ignores_virtual_outputs(
    s: Seq<(Seq<char>, OutputStateView)>,
    j: int,
    e: (Seq<char>, OutputStateView),
)
    requires
        0 <= j <= s.len(),
        !is_real_output(e.1),
    ensures
        setup_fingerprint_of(s.insert(j, e)) == setup_fingerprint_of(s),
{
    lemma_real_keys_insert(s, j, e);
}

/// The first limit broken by the outputs `s[i..]`, in order.
pub open spec fn entries_violation(s: Seq<(Seq<char>, OutputStateView)>) -> Option<LimitViolationView>
    decreases s.len(),
{
    if s.len() == 0 {
        None
    } else if validate_string_error("output name"@, s[0].0) is Some {
        Some(LimitViolationView::Message(validate_string_error("output name"@, s[0].0)->0))
    } else if s[0].1.limits_violation(s[0].0) is Some {
        s[0].1.limits_violation(s[0].0)
    } else {
        entries_violation(s.drop_first())
    }
}

impl Clone for Topology {
    fn clone(&self) -> (r: Self)
        ensures
            r@ == self@,
    {
        Topology { outputs: copy_entries(&self.outputs) }
    }
}

impl Topology {
    /// Output names are distinct.
    pub open spec fn wf(self) -> bool {
        distinct_names(names_of(self.outputs@))
    }

    pub open spec fn fingerprint_spec(self) -> Seq<char> {
        crate::text::join(sort_by(on_off_parts(self@), str_lt_fn()), ";"@)
    }

    pub open spec fn has_enabled_real_outputs_spec(self) -> bool {
        exists|i: int|
            0 <= i < self@.len() && #[trigger] self@[i].1.enabled && is_real_output(
                self@[i].1,
            )
    }

    pub open spec fn has_strong_setup_identity_spec(self) -> bool {
        &&& forall|i: int|
            0 <= i < self@.len() && is_real_output(#[trigger] self@[i].1)
                ==> self@[i].1.identity.has_non_connector_identity_spec()
        &&& exists|i: int|
            0 <= i < self@.len() && is_real_output(#[trigger] self@[i].1)
    }

    pub open spec fn limits_violation(self) -> Option<LimitViolationView> {
        if self@.len() > MAX_TOPOLOGY_OUTPUTS {
            Some(
                LimitViolationView::Message(
                    decimal(self@.len()) + " outputs reported, limit is "@ + decimal(
                        MAX_TOPOLOGY_OUTPUTS as nat,
                    ),
                ),
            )
        } else {
            entries_violation(self@)
        }
    }

    /// A topology without outputs.
    pub fn new() -> (r: Self)
        ensures
            r@.len() == 0,
            r.wf(),
    {
        Topology { outputs: Vec::new() }
    }

    /// Sets the output named `name`, replacing an output of that name.
    pub fn insert(&mut self, name: String, state: OutputState)
        requires
            old(self).wf(),
        ensures
            final(self).wf(),
            match name_index(names_of(old(self).outputs@), name@) {
                Some(i) => final(self)@ == old(self)@.update(i, (name@, state@)),
                None => final(self)@ == old(self)@.push((name@, state@)),
            },
    {
        proof {
            crate::assoc::lemma_distinct_after_set(names_of(self.outputs@), name@);
        }
        let ghost entry = (name, state);
        match find_key(&self.outputs, name.as_str()) {
            Some(i) => {
                proof {
                    crate::assoc::lemma_names_of_update(self.outputs@, i as int, entry);
                }
                self.outputs.set(i, (name, state));
                assert(entry_views(self.outputs@) =~= entry_views(old(self).outputs@).update(
                    i as int,
                    (entry.0@, entry.1@),
                ));
            },
            None => {
                proof {
                    crate::assoc::lemma_names_of_push(self.outputs@, entry);
                }
                self.outputs.push((name, state));
                assert(entry_views(self.outputs@) =~= entry_views(old(self).outputs@).push(
                    (entry.0@, entry.1@),
                ));
            },
        }
    }

    /// The output named `name`.
    pub fn get(&self, name: &str) -> (r: Option<&OutputState>)
        ensures
            match r {
                Some(o) => lookup(self@, name@) == Some(o@),
                None => lookup(self@, name@) is None,
            },
    {
        assert(view_names(self@) =~= names_of(self.outputs@));
        match find_key(&self.outputs, name) {
            Some(i) => Some(&self.outputs[i].1),
            None => None,
        }
    }

    /// Output names with their on/off state, sorted and joined by `;`.
    pub fn fingerprint(&self) -> (r: String)
        ensures
            r@ == self.fingerprint_spec(),
    {
        let mut parts: Vec<String> = Vec::new();
        let n = self.outputs.len();
        let mut i: usize = 0;
        while i < n
            invariant
                n == self@.len(),
                i <= n,
                parts@.len() == i,
                forall|j: int| 0 <= j < i ==> #[trigger] parts@[j]@ == on_off_part(self@[j]),
            decreases n - i,
        {
            let mut part = self.outputs[i].0.clone();
            if self.outputs[i].1.enabled {
                push_str(&mut part, ":on");
            } else {
                push_str(&mut part, ":off");
            }
            assert(self@[i as int] == (self.outputs@[i as int].0@, self.outputs@[i as int].1@));
            parts.push(part);
            i += 1;
        }
        assert(views(parts@) =~= on_off_parts(self@));
        let sorted = sort_strings(parts);
        crate::text::join_strings(&sorted, ";")
    }

    /// Sorted primary keys of the real outputs, joined by `;`.
    pub fn setup_fingerprint(&self) -> (r: String)
        ensures
            r@ == setup_fingerprint_of(self@),
    {
        let keys = real_keys(&self.outputs);
        assert(entry_views(self.outputs@) == self@);
        let sorted = sort_strings(keys);
        crate::text::join_strings(&sorted, ";")
    }

    /// Whether some real output is enabled.
    pub fn has_enabled_real_outputs(&self) -> (r: bool)
        ensures
            r == self.has_enabled_real_outputs_spec(),
    {
        let mut i: usize = 0;
        while i < self.outputs.len()
            invariant
                i <= self@.len(),
                forall|j: int|
                    0 <= j < i ==> !(#[trigger] self@[j].1.enabled && is_real_output(
                        self@[j].1,
                    )),
            decreases self@.len() - i,
        {
            let o = &self.outputs[i].1;
            assert(self@[i as int].1 == o@);
            if o.enabled && !o.identity.is_ignored && !o.identity.is_virtual {
                assert(self@[i as int].1.enabled && is_real_output(self@[i as int].1));
                return true;
            }
            i += 1;
        }
        false
    }

    /// Whether there is a real output and every real output is named by more
    /// than its connector.
    pub fn has_strong_setup_identity(&self) -> (r: bool)
        ensures
            r == self.has_strong_setup_identity_spec(),
    {
        let mut any_real = false;
        let mut i: usize = 0;
        while i < self.outputs.len()
            invariant
                i <= self@.len(),
                forall|j: int|
                    0 <= j < i && is_real_output(#[trigger] self@[j].1)
                        ==> self@[j].1.identity.has_non_connector_identity_spec(),
                any_real ==> exists|j: int|
                    0 <= j < i && is_real_output(#[trigger] self@[j].1),
                !any_real ==> forall|j: int| 0 <= j < i ==> !is_real_output(#[trigger] self@[j].1),
            decreases self@.len() - i,
        {
            let o = &self.outputs[i].1;
            assert(self@[i as int].1 == o@);
            if !o.identity.is_ignored && !o.identity.is_virtual {
                if !o.identity.has_non_connector_identity() {
                    return false;
                }
                any_real = true;
            }
            i += 1;
        }
        any_real
    }

    /// Rejects topologies with too many outputs or an output that breaks the limits.
    pub fn validate_limits(&self) -> (r: Result<(), LimitViolation>)
        ensures
            match r {
                Ok(()) => self.limits_violation() is None,
                Err(e) => self.limits_violation() == Some(e.view_of()),
            },
    {
        let n = self.outputs.len();
        if n > MAX_TOPOLOGY_OUTPUTS {
            let mut message = String::new();
            push_decimal(&mut message, n as u128);
            push_str(&mut message, " outputs reported, limit is ");
            push_decimal(&mut message, MAX_TOPOLOGY_OUTPUTS as u128);
            assert(message@ =~= decimal(n as nat) + " outputs reported, limit is "@ + decimal(
                MAX_TOPOLOGY_OUTPUTS as nat,
            ));
            return Err(LimitViolation::Message(message));
        }
        assert(self@.skip(0) =~= self@);
        let mut i: usize = 0;
        while i < n
            invariant
                n == self@.len(),
                n <= MAX_TOPOLOGY_OUTPUTS,
                i <= n,
                entries_violation(self@) == entries_violation(
                    self@.skip(i as int),
                ),
            decreases n - i,
        {
            let ghost rest = self@.skip(i as int);
            assert(rest[0] == self@[i as int]);
            assert(self@[i as int] == (self.outputs@[i as int].0@, self.outputs@[i as int].1@));
            assert(rest.drop_first() =~= self@.skip(i + 1));
            match validate_string("output name", self.outputs[i].0.as_str()) {
                Err(e) => {
                    assert(entries_violation(rest) == Some(LimitViolationView::Message(e@)));
                    return Err(LimitViolation::Message(e));
                },
                Ok(()) => {},
            }
            match self.outputs[i].1.validate_limits(self.outputs[i].0.as_str()) {
                Err(e) => {
                    assert(entries_violation(rest) == Some(e.view_of()));
                    return Err(e);
                },
                Ok(()) => {},
            }
            i += 1;
        }
        assert(self@.skip(n as int).len() == 0);
        Ok(())
    }
}

/// The primary keys of the real outputs, in order.
pub fn real_keys(s: &Vec<(String, OutputState)>) -> (r: Vec<String>)
    ensures
        views(r@) == real_output_keys(entry_views(s@)),
{
    let ghost sv = entry_views(s@);
    let mut keys: Vec<String> = Vec::new();
    let n = s.len();
    let mut i: usize = 0;
    while i < n
        invariant
            n == s@.len(),
            i <= n,
            sv == entry_views(s@),
            views(keys@) == real_output_keys(sv.take(i as int)),
        decreases n - i,
    {
        let o = &s[i].1;
        assert(sv[i as int] == (s@[i as int].0@, s@[i as int].1@));
        let ghost prefix = sv.take(i + 1);
        assert(prefix.drop_last() =~= sv.take(i as int));
        assert(prefix.last() == sv[i as int]);
        if !o.identity.is_ignored && !o.identity.is_virtual {
            keys.push(o.identity.primary_key());
        }
        i += 1;
        assert(views(keys@) =~= real_output_keys(sv.take(i as int)));
    }
    assert(sv.take(n as int) =~= sv);
    keys
}

} // verus!
