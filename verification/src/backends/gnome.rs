//! The GNOME (Mutter) backend's logic: how Mutter's monitors and logical
//! monitors become a topology, and how a plan's enabled outputs become
//! logical monitors.
use vstd::prelude::*;

use super::{names_virtual, text_names_virtual};
use crate::assoc::{assoc_get, assoc_insert, assoc_set, distinct_names, kv_views, lookup, names_of, view_names};
use crate::model::{Mode, Position, Transform};
use crate::engine::{ApplyResult, ConfigFailureKind, TestResult, ValidationStatus};
use crate::text::{
    chars_lower_contains, chars_of, decimal, lower_contains, opt_view, push_decimal, push_str, str_lt,
    string_from_chars, string_lt, trim, trim_bounds,
};

verus! {

// ---------------------------------------------------------------------------
// Transforms, names, virtual outputs
// ---------------------------------------------------------------------------

/// Mutter's transform numbers: 0 to 3 rotate, 4 to 7 flip and rotate;
/// anything else is taken as no transform.
pub open spec fn transform_from_gnome_spec(value: u32) -> Transform {
    if value == 1 {
        Transform::Rot90
    } else if value == 2 {
        Transform::Rot180
    } else if value == 3 {
        Transform::Rot270
    } else if value == 4 {
        Transform::Flipped
    } else if value == 5 {
        Transform::Flipped90
    } else if value == 6 {
        Transform::Flipped180
    } else if value == 7 {
        Transform::Flipped270
    } else {
        Transform::Normal
    }
}

pub open spec fn transform_to_gnome_spec(t: Transform) -> u32 {
    match t {
        Transform::Normal => 0,
        Transform::Rot90 => 1,
        Transform::Rot180 => 2,
        Transform::Rot270 => 3,
        Transform::Flipped => 4,
        Transform::Flipped90 => 5,
        Transform::Flipped180 => 6,
        Transform::Flipped270 => 7,
    }
}

pub fn transform_from_gnome(value: u32) -> (r: Transform)
    ensures
        r == transform_from_gnome_spec(value),
{
    match value {
        1 => Transform::Rot90,
        2 => Transform::Rot180,
        3 => Transform::Rot270,
        4 => Transform::Flipped,
        5 => Transform::Flipped90,
        6 => Transform::Flipped180,
        7 => Transform::Flipped270,
        _ => Transform::Normal,
    }
}

pub fn transform_to_gnome(value: Transform) -> (r: u32)
    ensures
        r == transform_to_gnome_spec(value),
{
    match value {
        Transform::Normal => 0,
        Transform::Rot90 => 1,
        Transform::Rot180 => 2,
        Transform::Rot270 => 3,
        Transform::Flipped => 4,
        Transform::Flipped90 => 5,
        Transform::Flipped180 => 6,
        Transform::Flipped270 => 7,
    }
}

/// Sending a transform to Mutter and reading it back gives the transform.
pub proof fn lemma_gnome_transform_roundtrip(t: Transform)
    ensures
        transform_from_gnome_spec(transform_to_gnome_spec(t)) == t,
{
}

/// The trimmed value, where it is not empty.
pub open spec fn non_empty_spec(value: Seq<char>) -> Option<Seq<char>> {
    if trim(value).len() > 0 {
        Some(trim(value))
    } else {
        None
    }
}

pub fn non_empty(value: &str) -> (r: Option<String>)
    ensures
        opt_view(r) == non_empty_spec(value@),
{
    let chars = chars_of(value);
    let (start, end) = trim_bounds(&chars);
    if start == end {
        None
    } else {
        Some(string_from_chars(&chars, start, end))
    }
}

/// An output is virtual when its connector or its description says
/// `virtual` or `headless`.
pub open spec fn is_virtual_output_spec(connector: Seq<char>, description: Option<Seq<char>>) -> bool {
    names_virtual(connector) || match description {
        Some(d) => names_virtual(d),
        None => false,
    }
}

pub fn is_virtual_output(connector: &str, description: Option<&str>) -> (r: bool)
    ensures
        r == is_virtual_output_spec(
            connector@,
            match description {
                Some(d) => Some(d@),
                None => None,
            },
        ),
{
    text_names_virtual(connector) || match description {
        Some(d) => text_names_virtual(d),
        None => false,
    }
}

/// Mutter reports dimensions as `i32`; negative ones count as zero.
pub fn dimension_from_i32(value: i32) -> (r: u32)
    ensures
        r == (if value < 0 {
            0
        } else {
            value as int
        }),
{
    if value < 0 {
        0
    } else {
        value as u32
    }
}

// ---------------------------------------------------------------------------
// Logical monitors
// ---------------------------------------------------------------------------

/// A logical monitor as Mutter reports it. The scale is the bit pattern of
/// an IEEE-754 binary64 value.
#[derive(Debug, PartialEq)]
pub struct LogicalMonitorConfig {
    pub position: Position,
    pub scale: u64,
    pub transform: u32,
    pub primary: bool,
    pub connectors: Vec<String>,
}

/// What a connector's logical monitor says of it.
#[derive(Debug, PartialEq)]
pub struct LogicalMonitorSnapshot {
    pub position: Position,
    pub scale: u64,
    pub transform: u32,
    pub primary: bool,
    pub mirror_target: Option<String>,
}

pub ghost struct SnapshotView {
    pub position: Position,
    pub scale: u64,
    pub transform: u32,
    pub primary: bool,
    pub mirror_target: Option<Seq<char>>,
}

impl View for LogicalMonitorSnapshot {
    type V = SnapshotView;

    open spec fn view(&self) -> SnapshotView {
        SnapshotView {
            position: self.position,
            scale: self.scale,
            transform: self.transform,
            primary: self.primary,
            mirror_target: opt_view(self.mirror_target),
        }
    }
}

impl Clone for LogicalMonitorSnapshot {
    fn clone(&self) -> (r: Self)
        ensures
            r@ == self@,
    {
        LogicalMonitorSnapshot {
            position: self.position,
            scale: self.scale,
            transform: self.transform,
            primary: self.primary,
            mirror_target: crate::text::copy_opt_string(&self.mirror_target),
        }
    }
}

/// The snapshot of the `k`-th connector of a logical monitor: a logical
/// monitor with several connectors mirrors them all onto its first.
pub open spec fn snapshot_for(
    position: Position,
    scale: u64,
    transform: u32,
    primary: bool,
    connectors: Seq<Seq<char>>,
    k: int,
) -> SnapshotView {
    SnapshotView {
        position,
        scale,
        transform,
        primary,
        mirror_target: if connectors.len() > 1 && connectors[0] != connectors[k] {
            Some(connectors[0])
        } else {
            None
        },
    }
}

/// The snapshots after the connectors of one logical monitor, in order.
pub open spec fn add_logical(
    acc: Seq<(Seq<char>, SnapshotView)>,
    position: Position,
    scale: u64,
    transform: u32,
    primary: bool,
    connectors: Seq<Seq<char>>,
    n: int,
) -> Seq<(Seq<char>, SnapshotView)>
    decreases n,
{
    if n <= 0 {
        acc
    } else {
        assoc_set(
            add_logical(acc, position, scale, transform, primary, connectors, n - 1),
            connectors[n - 1],
            snapshot_for(position, scale, transform, primary, connectors, n - 1),
        )
    }
}

pub open spec fn logical_views(v: Seq<LogicalMonitorConfig>, n: int) -> Seq<(Seq<char>, SnapshotView)>
    decreases n,
{
    if n <= 0 {
        Seq::empty()
    } else {
        let l = v[n - 1];
        add_logical(
            logical_views(v, n - 1),
            l.position,
            l.scale,
            l.transform,
            l.primary,
            crate::text::views(l.connectors@),
            l.connectors@.len() as int,
        )
    }
}

/// The snapshot of each connector of the logical monitors, by connector;
/// a connector listed again takes its later snapshot.
pub fn logical_by_connector(logical: &Vec<LogicalMonitorConfig>) -> (r: Vec<
    (String, LogicalMonitorSnapshot),
>)
    ensures
        kv_views(r@) == logical_views(logical@, logical@.len() as int),
        distinct_names(names_of(r@)),
{
    let mut r: Vec<(String, LogicalMonitorSnapshot)> = Vec::new();
    let mut i: usize = 0;
    while i < logical.len()
        invariant
            i <= logical@.len(),
            kv_views(r@) == logical_views(logical@, i as int),
            distinct_names(names_of(r@)),
        decreases logical@.len() - i,
    {
        let l = &logical[i];
        let ghost cs = crate::text::views(l.connectors@);
        let ghost base = kv_views(r@);
        let mut k: usize = 0;
        while k < l.connectors.len()
            invariant
                l == &logical@[i as int],
                cs == crate::text::views(l.connectors@),
                k <= l.connectors@.len(),
                kv_views(r@) == add_logical(
                    base,
                    l.position,
                    l.scale,
                    l.transform,
                    l.primary,
                    cs,
                    k as int,
                ),
                distinct_names(names_of(r@)),
            decreases l.connectors@.len() - k,
        {
            let connector = &l.connectors[k];
            let first = &l.connectors[0];
            let mirror_target = if l.connectors.len() > 1 && *first != *connector {
                Some(first.clone())
            } else {
                None
            };
            assert(cs[k as int] == connector@);
            assert(cs[0] == first@);
            let snapshot = LogicalMonitorSnapshot {
                position: l.position,
                scale: l.scale,
                transform: l.transform,
                primary: l.primary,
                mirror_target,
            };
            assert(snapshot@ == snapshot_for(l.position, l.scale, l.transform, l.primary, cs, k as int));
            assoc_insert(&mut r, connector.clone(), snapshot);
            k += 1;
        }
        i += 1;
    }
    r
}

/// The connector of the first snapshot that is primary.
pub open spec fn first_primary(s: Seq<(Seq<char>, SnapshotView)>) -> Option<Seq<char>> {
    if exists|i: int| 0 <= i < s.len() && (#[trigger] s[i]).1.primary {
        let i = choose|i: int|
            0 <= i < s.len() && (#[trigger] s[i]).1.primary && forall|j: int|
                0 <= j < i ==> !(#[trigger] s[j]).1.primary;
        Some(s[i].0)
    } else {
        None
    }
}

// ---------------------------------------------------------------------------
// Logical monitors for a plan
// ---------------------------------------------------------------------------

pub type Entries = Seq<(Seq<char>, crate::model::OutputStateView)>;

/// Outputs that Mutter can show as one logical monitor: same position,
/// mode, scale and transform.
pub open spec fn same_group_key(a: crate::model::OutputStateView, b: crate::model::OutputStateView) -> bool {
    a.position == b.position && a.mode == b.mode && a.scale == b.scale && a.transform == b.transform
}

/// An output without a mirror target that the `i`-th output can join: one
/// no later than it with the same key.
pub open spec fn implicit_root_at(e: Entries, i: int, j: int) -> bool {
    0 <= j <= i && e[j].1.mirror_target is None && same_group_key(e[j].1, e[i].1)
}

/// The logical monitor an output belongs to, named by its root: its mirror
/// target, else the first output without one that has its key.
pub open spec fn root_of(e: Entries, i: int) -> Seq<char> {
    match e[i].1.mirror_target {
        Some(t) => t,
        None => e[choose|j: int| implicit_root_at(e, i, j) && forall|k: int| 0 <= k < j ==> !implicit_root_at(e, i, k)].0,
    }
}

/// The `i`-th output's root is not among the outputs, or it mirrors an
/// output that mirrors another.
pub open spec fn group_error_at(e: Entries, i: int) -> bool {
    let root = root_of(e, i);
    match lookup(e, root) {
        None => true,
        Some(r) => e[i].1.mirror_target is Some && r.mirror_target is Some,
    }
}

pub open spec fn group_error_message(e: Entries, i: int) -> Seq<char> {
    let root = root_of(e, i);
    if lookup(e, root) is None {
        "mirrored output `"@ + e[i].0 + "` targets disconnected output `"@ + root + "`"@
    } else {
        "mirrored output `"@ + e[i].0 + "` targets `"@ + root + "`, which is itself mirrored"@
    }
}

/// The first output whose grouping fails.
pub open spec fn first_group_error(e: Entries) -> Option<int> {
    if exists|i: int| 0 <= i < e.len() && #[trigger] group_error_at(e, i) {
        Some(choose|i: int| 0 <= i < e.len() && #[trigger] group_error_at(e, i) && forall|k: int|
            0 <= k < i ==> !#[trigger] group_error_at(e, k))
    } else {
        None
    }
}

pub open spec fn roots_seq(e: Entries) -> Seq<Seq<char>> {
    Seq::new(e.len(), |i: int| root_of(e, i))
}

/// Each name once, in the order of first appearance.
pub open spec fn distinct_in_order(s: Seq<Seq<char>>) -> Seq<Seq<char>>
    decreases s.len(),
{
    if s.len() == 0 {
        s
    } else {
        let r = distinct_in_order(s.drop_last());
        if r.contains(s.last()) {
            r
        } else {
            r.push(s.last())
        }
    }
}

pub open spec fn rooted(e: Entries) -> Seq<((Seq<char>, crate::model::OutputStateView), Seq<char>)> {
    Seq::new(e.len(), |i: int| (e[i], root_of(e, i)))
}

pub open spec fn has_root(r: Seq<char>) -> spec_fn(((Seq<char>, crate::model::OutputStateView), Seq<char>)) -> bool {
    |p: ((Seq<char>, crate::model::OutputStateView), Seq<char>)| p.1 == r
}

pub open spec fn first_of_pair(s: Seq<((Seq<char>, crate::model::OutputStateView), Seq<char>)>) -> Entries {
    s.map_values(|p: ((Seq<char>, crate::model::OutputStateView), Seq<char>)| p.0)
}

/// Within a logical monitor, the output that others mirror comes first,
/// then by name.
pub open spec fn member_lt(a: (Seq<char>, crate::model::OutputStateView), b: (Seq<char>, crate::model::OutputStateView)) -> bool {
    (a.1.mirror_target is None && b.1.mirror_target is Some) || ((a.1.mirror_target is Some)
        == (b.1.mirror_target is Some) && str_lt(a.0, b.0))
}

pub open spec fn member_lt_fn() -> spec_fn((Seq<char>, crate::model::OutputStateView), (Seq<char>, crate::model::OutputStateView)) -> bool {
    |a: (Seq<char>, crate::model::OutputStateView), b: (Seq<char>, crate::model::OutputStateView)| member_lt(a, b)
}

/// The outputs of the logical monitor rooted at `r`, in order.
pub open spec fn group_spec(e: Entries, r: Seq<char>) -> Entries {
    crate::text::sort_by(first_of_pair(crate::store::keep(rooted(e), has_root(r))), member_lt_fn())
}

fn same_key(a: &crate::model::OutputState, b: &crate::model::OutputState) -> (r: bool)
    ensures
        r == same_group_key(a@, b@),
{
    let same_mode = match (a.mode, b.mode) {
        (Some(x), Some(y)) => x == y,
        (None, None) => true,
        _ => false,
    };
    a.position == b.position && same_mode && a.scale == b.scale && a.transform == b.transform
}

proof fn lemma_root_choice(e: Entries, i: int, j: int)
    requires
        0 <= i < e.len(),
        e[i].1.mirror_target is None,
        implicit_root_at(e, i, j),
        forall|k: int| 0 <= k < j ==> !implicit_root_at(e, i, k),
    ensures
        root_of(e, i) == e[j].0,
{
    let c = choose|c: int| implicit_root_at(e, i, c) && forall|k: int| 0 <= k < c ==> !implicit_root_at(e, i, k);
    assert(implicit_root_at(e, i, c));
    if c < j {
        assert(!implicit_root_at(e, i, c));
    } else if c > j {
        assert(!implicit_root_at(e, i, j));
    }
}

proof fn lemma_first_group_error(e: Entries, i: int)
    requires
        0 <= i < e.len(),
        group_error_at(e, i),
        forall|k: int| 0 <= k < i ==> !#[trigger] group_error_at(e, k),
    ensures
        first_group_error(e) == Some(i),
{
    let c = first_group_error(e)->0;
    assert(group_error_at(e, c));
    if c < i {
        assert(!group_error_at(e, c));
    } else if c > i {
        assert(!group_error_at(e, i));
    }
}

/// The root of the `i`-th output.
fn root_name(e: &Vec<(String, crate::model::OutputState)>, i: usize) -> (r: String)
    requires
        i < e@.len(),
    ensures
        r@ == root_of(crate::model::entry_views(e@), i as int),
{
    let ghost v = crate::model::entry_views(e@);
    assert(v[i as int] == (e@[i as int].0@, e@[i as int].1@));
    match &e[i].1.mirror_target {
        Some(t) => t.clone(),
        None => {
            let mut j: usize = 0;
            while j < i
                invariant
                    v == crate::model::entry_views(e@),
                    j <= i < e@.len(),
                    v[i as int].1.mirror_target is None,
                    forall|k: int| 0 <= k < j ==> !implicit_root_at(v, i as int, k),
                ensures
                    j <= i,
                    forall|k: int| 0 <= k < j ==> !implicit_root_at(v, i as int, k),
                    j == i || implicit_root_at(v, i as int, j as int),
                decreases i - j,
            {
                assert(v[j as int] == (e@[j as int].0@, e@[j as int].1@));
                if e[j].1.mirror_target.is_none() && same_key(&e[j].1, &e[i].1) {
                    break;
                }
                j += 1;
            }
            assert(v[j as int] == (e@[j as int].0@, e@[j as int].1@));
            proof {
                if j == i {
                    assert(implicit_root_at(v, i as int, i as int));
                }
                lemma_root_choice(v, i as int, j as int);
            }
            e[j].0.clone()
        },
    }
}

fn contains_name(v: &Vec<String>, x: &String) -> (r: bool)
    ensures
        r == crate::text::views(v@).contains(x@),
{
    let mut i: usize = 0;
    while i < v.len()
        invariant
            i <= v@.len(),
            forall|k: int| 0 <= k < i ==> v@[k]@ != x@,
        decreases v@.len() - i,
    {
        if v[i] == *x {
            assert(crate::text::views(v@)[i as int] == x@);
            return true;
        }
        i += 1;
    }
    proof {
        if crate::text::views(v@).contains(x@) {
            let k = choose|k: int| 0 <= k < v@.len() && crate::text::views(v@)[k] == x@;
            assert(v@[k]@ == x@);
        }
    }
    false
}

/// Sorts the outputs of one logical monitor: the mirrored-onto output first,
/// then by name.
fn sort_members(v: Vec<(String, crate::model::OutputState)>) -> (r: Vec<(String, crate::model::OutputState)>)
    ensures
        crate::model::entry_views(r@) == crate::text::sort_by(crate::model::entry_views(v@), member_lt_fn()),
{
    let ghost s = crate::model::entry_views(v@);
    let mut r: Vec<(String, crate::model::OutputState)> = Vec::new();
    let n = v.len();
    let mut i: usize = 0;
    while i < n
        invariant
            n == v@.len(),
            s == crate::model::entry_views(v@),
            i <= n,
            crate::model::entry_views(r@) == crate::text::sort_by(s.take(i as int), member_lt_fn()),
        decreases n - i,
    {
        let x = (v[i].0.clone(), v[i].1.clone());
        let ghost xv = (x.0@, x.1@);
        assert(xv == s[i as int]);
        let ghost before = crate::model::entry_views(r@);
        let mut j: usize = 0;
        while j < r.len() && !member_before(&x, &r[j])
            invariant
                before == crate::model::entry_views(r@),
                j <= r@.len(),
                xv == (x.0@, x.1@),
                forall|k: int| 0 <= k < j ==> !member_lt(xv, #[trigger] before[k]),
            decreases r@.len() - j,
        {
            assert(before[j as int] == (r@[j as int].0@, r@[j as int].1@));
            j += 1;
        }
        proof {
            if j < r@.len() {
                assert(before[j as int] == (r@[j as int].0@, r@[j as int].1@));
            }
            assert forall|k: int| 0 <= k < j implies !(member_lt_fn())(xv, #[trigger] before[k]) by {}
            crate::text::lemma_insert_by_at(before, xv, member_lt_fn(), j as int);
        }
        r.insert(j, x);
        i += 1;
        proof {
            let prefix = s.take(i as int);
            assert(prefix.drop_last() =~= s.take(i - 1));
            assert(prefix.last() == xv);
            assert(crate::model::entry_views(r@) =~= before.take(j as int).push(xv) + before.skip(
                j as int,
            ));
        }
    }
    assert(s.take(n as int) =~= s);
    r
}

fn member_before(a: &(String, crate::model::OutputState), b: &(String, crate::model::OutputState)) -> (r: bool)
    ensures
        r == member_lt((a.0@, a.1@), (b.0@, b.1@)),
{
    let am = a.1.mirror_target.is_some();
    let bm = b.1.mirror_target.is_some();
    (!am && bm) || (am == bm && string_lt(&a.0, &b.0))
}

/// Groups the enabled outputs of a plan into Mutter's logical monitors:
/// each output joins its mirror target's group, or else the group of the
/// first output without a mirror target that has its position, mode, scale
/// and transform. Groups come in the order their roots first appear. An
/// output that mirrors a missing output, or one that is itself mirrored, is
/// an error (the first such output is reported).
pub fn build_logical_groups(enabled_outputs: &Vec<(String, crate::model::OutputState)>) -> (r: Result<
    Vec<Vec<(String, crate::model::OutputState)>>,
    String,
>)
    ensures
        ({
            let e = crate::model::entry_views(enabled_outputs@);
            match first_group_error(e) {
                Some(i) => r matches Err(m) && m@ == group_error_message(e, i),
                None => r matches Ok(groups) && groups@.len() == distinct_in_order(
                    roots_seq(e),
                ).len() && forall|k: int|
                    0 <= k < groups@.len() ==> crate::model::entry_views(#[trigger] groups@[k]@)
                        == group_spec(e, distinct_in_order(roots_seq(e))[k]),
            }
        }),
{
    let ghost e = crate::model::entry_views(enabled_outputs@);
    proof {
        crate::assoc::lemma_kv_names(enabled_outputs@);
    }
    let n = enabled_outputs.len();
    let mut roots: Vec<String> = Vec::new();
    let mut i: usize = 0;
    while i < n
        invariant
            n == enabled_outputs@.len(),
            e == crate::model::entry_views(enabled_outputs@),
            view_names(e) == names_of(enabled_outputs@),
            i <= n,
            roots@.len() == i,
            forall|k: int| 0 <= k < i ==> (#[trigger] roots@[k])@ == root_of(e, k),
            forall|k: int| 0 <= k < i ==> !#[trigger] group_error_at(e, k),
        decreases n - i,
    {
        let root = root_name(enabled_outputs, i);
        let name = &enabled_outputs[i].0;
        assert(e[i as int] == (name@, enabled_outputs@[i as int].1@));
        match crate::assoc::find_key(enabled_outputs, root.as_str()) {
            None => {
                proof {
                    assert(lookup(e, root@) is None);
                    lemma_first_group_error(e, i as int);
                }
                let mut m = "mirrored output `".to_owned();
                crate::text::push_str(&mut m, name.as_str());
                crate::text::push_str(&mut m, "` targets disconnected output `");
                crate::text::push_str(&mut m, root.as_str());
                crate::text::push_str(&mut m, "`");
                return Err(m);
            },
            Some(k) => {
                assert(e[k as int] == (enabled_outputs@[k as int].0@, enabled_outputs@[k as int].1@));
                assert(lookup(e, root@) == Some(e[k as int].1));
                if enabled_outputs[i].1.mirror_target.is_some() && enabled_outputs[k].1.mirror_target.is_some() {
                    proof {
                        lemma_first_group_error(e, i as int);
                    }
                    let mut m = "mirrored output `".to_owned();
                    crate::text::push_str(&mut m, name.as_str());
                    crate::text::push_str(&mut m, "` targets `");
                    crate::text::push_str(&mut m, root.as_str());
                    crate::text::push_str(&mut m, "`, which is itself mirrored");
                    return Err(m);
                }
            },
        }
        roots.push(root);
        i += 1;
    }
    proof {
        if first_group_error(e) is Some {
            let c = first_group_error(e)->0;
            assert(group_error_at(e, c));
        }
    }
    assert(crate::text::views(roots@) =~= roots_seq(e));
    // The roots in the order they first appear.
    let mut order: Vec<String> = Vec::new();
    let mut i: usize = 0;
    while i < n
        invariant
            n == roots@.len(),
            crate::text::views(roots@) == roots_seq(e),
            i <= n,
            crate::text::views(order@) == distinct_in_order(roots_seq(e).take(i as int)),
        decreases n - i,
    {
        let ghost rs = roots_seq(e);
        assert(rs.take(i + 1).drop_last() =~= rs.take(i as int));
        assert(rs.take(i + 1).last() == roots@[i as int]@);
        if !contains_name(&order, &roots[i]) {
            let ghost old_o = order@;
            order.push(roots[i].clone());
            assert(crate::text::views(order@) =~= crate::text::views(old_o).push(roots@[i as int]@));
        }
        i += 1;
    }
    assert(roots_seq(e).take(n as int) =~= roots_seq(e));
    // The members of each group.
    let mut groups: Vec<Vec<(String, crate::model::OutputState)>> = Vec::new();
    let mut g: usize = 0;
    while g < order.len()
        invariant
            n == roots@.len(),
            n == enabled_outputs@.len(),
            e == crate::model::entry_views(enabled_outputs@),
            crate::text::views(roots@) == roots_seq(e),
            crate::text::views(order@) == distinct_in_order(roots_seq(e)),
            g <= order@.len(),
            groups@.len() == g,
            forall|k: int|
                0 <= k < g ==> crate::model::entry_views(#[trigger] groups@[k]@) == group_spec(
                    e,
                    distinct_in_order(roots_seq(e))[k],
                ),
        decreases order@.len() - g,
    {
        let r = &order[g];
        assert(crate::text::views(order@)[g as int] == r@);
        let ghost z = rooted(e);
        let ghost f = has_root(r@);
        let mut members: Vec<(String, crate::model::OutputState)> = Vec::new();
        let mut i: usize = 0;
        while i < n
            invariant
                n == roots@.len(),
                n == enabled_outputs@.len(),
                e == crate::model::entry_views(enabled_outputs@),
                crate::text::views(roots@) == roots_seq(e),
                z == rooted(e),
                f == has_root(r@),
                i <= n,
                crate::model::entry_views(members@) == first_of_pair(crate::store::keep(z.take(i as int), f)),
            decreases n - i,
        {
            proof {
                assert(crate::text::views(roots@)[i as int] == roots@[i as int]@);
                assert(roots_seq(e)[i as int] == root_of(e, i as int));
                assert(z.len() == n);
                crate::store::lemma_keep_step(z, f, i as int);
                assert(z[i as int] == (e[i as int], roots@[i as int]@));
            }
            if roots[i] == *r {
                let ghost old_m = members@;
                members.push((enabled_outputs[i].0.clone(), enabled_outputs[i].1.clone()));
                proof {
                    assert(e[i as int] == (enabled_outputs@[i as int].0@, enabled_outputs@[i as int].1@));
                    let kept = crate::store::keep(z.take(i as int), f);
                    assert(first_of_pair(kept.push(z[i as int])) =~= first_of_pair(kept).push(e[i as int]));
                    assert(crate::model::entry_views(members@) =~= crate::model::entry_views(old_m).push(
                        e[i as int],
                    ));
                }
            }
            i += 1;
        }
        assert(z.take(n as int) =~= z);
        let sorted = sort_members(members);
        groups.push(sorted);
        proof {
            assert forall|k: int| 0 <= k < g + 1 implies crate::model::entry_views(#[trigger] groups@[k]@)
                == group_spec(e, distinct_in_order(roots_seq(e))[k]) by {
                if k == g {
                    assert(distinct_in_order(roots_seq(e))[k] == r@);
                }
            }
        }
        g += 1;
    }
    Ok(groups)
}

// ---------------------------------------------------------------------------
// The plan's enabled outputs, and the primary monitor
// ---------------------------------------------------------------------------

pub open spec fn is_enabled_entry() -> spec_fn((Seq<char>, crate::model::OutputStateView)) -> bool {
    |e: (Seq<char>, crate::model::OutputStateView)| e.1.enabled
}

/// Top to bottom, then left to right, then by name.
pub open spec fn placement_lt(a: (Seq<char>, crate::model::OutputStateView), b: (Seq<char>, crate::model::OutputStateView)) -> bool {
    a.1.position.y < b.1.position.y || (a.1.position.y == b.1.position.y && (a.1.position.x
        < b.1.position.x || (a.1.position.x == b.1.position.x && str_lt(a.0, b.0))))
}

pub open spec fn placement_lt_fn() -> spec_fn((Seq<char>, crate::model::OutputStateView), (Seq<char>, crate::model::OutputStateView)) -> bool {
    |a: (Seq<char>, crate::model::OutputStateView), b: (Seq<char>, crate::model::OutputStateView)| placement_lt(a, b)
}

fn placed_before(a: &(String, crate::model::OutputState), b: &(String, crate::model::OutputState)) -> (r: bool)
    ensures
        r == placement_lt((a.0@, a.1@), (b.0@, b.1@)),
{
    let (ay, by) = (a.1.position.y, b.1.position.y);
    let (ax, bx) = (a.1.position.x, b.1.position.x);
    ay < by || (ay == by && (ax < bx || (ax == bx && string_lt(&a.0, &b.0))))
}

/// The plan's enabled outputs, top to bottom, then left to right, then by name.
pub fn enabled_outputs_in_order(plan: &crate::planner::LayoutPlan) -> (r: Vec<(String, crate::model::OutputState)>)
    ensures
        crate::model::entry_views(r@) == crate::text::sort_by(
            crate::store::keep(plan@.outputs, is_enabled_entry()),
            placement_lt_fn(),
        ),
{
    let ghost s = plan@.outputs;
    let ghost f = is_enabled_entry();
    let mut r: Vec<(String, crate::model::OutputState)> = Vec::new();
    let mut i: usize = 0;
    while i < plan.outputs.len()
        invariant
            s == plan@.outputs,
            f == is_enabled_entry(),
            i <= s.len(),
            crate::model::entry_views(r@) == crate::text::sort_by(
                crate::store::keep(s.take(i as int), f),
                placement_lt_fn(),
            ),
        decreases s.len() - i,
    {
        proof {
            crate::store::lemma_keep_step(s, f, i as int);
        }
        assert(s[i as int] == (plan.outputs@[i as int].0@, plan.outputs@[i as int].1@));
        if plan.outputs[i].1.enabled {
            let x = (plan.outputs[i].0.clone(), plan.outputs[i].1.clone());
            let ghost xv = (x.0@, x.1@);
            let ghost before = crate::model::entry_views(r@);
            let mut j: usize = 0;
            while j < r.len() && !placed_before(&x, &r[j])
                invariant
                    before == crate::model::entry_views(r@),
                    j <= r@.len(),
                    xv == (x.0@, x.1@),
                    forall|k: int| 0 <= k < j ==> !placement_lt(xv, #[trigger] before[k]),
                decreases r@.len() - j,
            {
                assert(before[j as int] == (r@[j as int].0@, r@[j as int].1@));
                j += 1;
            }
            proof {
                if j < r@.len() {
                    assert(before[j as int] == (r@[j as int].0@, r@[j as int].1@));
                }
                assert forall|k: int| 0 <= k < j implies !(placement_lt_fn())(xv, #[trigger] before[k]) by {}
                crate::text::lemma_insert_by_at(before, xv, placement_lt_fn(), j as int);
                let kept = crate::store::keep(s.take(i as int), f);
                assert(kept.push(xv).drop_last() =~= kept);
            }
            r.insert(j, x);
            assert(crate::model::entry_views(r@) =~= before.take(j as int).push(xv) + before.skip(
                j as int,
            ));
        }
        i += 1;
    }
    assert(s.take(s.len() as int) =~= s);
    r
}

/// The names of the enabled outputs.
pub open spec fn enabled_names(s: Seq<(Seq<char>, crate::model::OutputStateView)>) -> Seq<Seq<char>> {
    first_names(crate::store::keep(s, is_enabled_entry()))
}

pub open spec fn first_names(s: Seq<(Seq<char>, crate::model::OutputStateView)>) -> Seq<Seq<char>> {
    s.map_values(|e: (Seq<char>, crate::model::OutputStateView)| e.0)
}

pub open spec fn is_least_name(n: Seq<char>, names: Seq<Seq<char>>) -> bool {
    names.contains(n) && forall|k: int| 0 <= k < names.len() ==> !str_lt(#[trigger] names[k], n)
}

/// The primary monitor: the current primary where it stays enabled, else
/// the enabled output with the least name; none when nothing is enabled.
pub open spec fn primary_spec(logical: Seq<(Seq<char>, SnapshotView)>, plan: Seq<(Seq<char>, crate::model::OutputStateView)>) -> Option<Seq<char>> {
    let names = enabled_names(plan);
    if names.len() == 0 {
        None
    } else {
        match first_primary(logical) {
            Some(c) => if names.contains(c) {
                Some(c)
            } else {
                Some(choose|n: Seq<char>| is_least_name(n, names))
            },
            None => Some(choose|n: Seq<char>| is_least_name(n, names)),
        }
    }
}

proof fn lemma_least_name(n: Seq<char>, names: Seq<Seq<char>>)
    requires
        is_least_name(n, names),
    ensures
        (choose|m: Seq<char>| is_least_name(m, names)) == n,
{
    let m = choose|m: Seq<char>| is_least_name(m, names);
    assert(is_least_name(m, names));
    if m != n {
        crate::text::lemma_str_lt_total(m, n);
        let i = choose|i: int| 0 <= i < names.len() && names[i] == m;
        let j = choose|j: int| 0 <= j < names.len() && names[j] == n;
        assert(!str_lt(names[i], n));
        assert(!str_lt(names[j], m));
    }
}

/// The index of the first snapshot that is primary.
fn first_primary_index(logical_by_connector: &Vec<(String, LogicalMonitorSnapshot)>) -> (r: Option<usize>)
    ensures
        match r {
            Some(k) => k < logical_by_connector@.len() && first_primary(kv_views(logical_by_connector@))
                == Some(logical_by_connector@[k as int].0@),
            None => first_primary(kv_views(logical_by_connector@)) is None,
        },
{
    let ghost lv = kv_views(logical_by_connector@);
    let mut k: usize = 0;
    while k < logical_by_connector.len()
        invariant
            lv == kv_views(logical_by_connector@),
            k <= lv.len(),
            forall|j: int| 0 <= j < k ==> !(#[trigger] lv[j]).1.primary,
        decreases lv.len() - k,
    {
        assert(lv[k as int] == (logical_by_connector@[k as int].0@, logical_by_connector@[k as int].1@));
        if logical_by_connector[k].1.primary {
            proof {
                let c = choose|c: int|
                    0 <= c < lv.len() && (#[trigger] lv[c]).1.primary && forall|j: int|
                        0 <= j < c ==> !(#[trigger] lv[j]).1.primary;
                if c < k {
                    assert(!lv[c].1.primary);
                }
                if c > k {
                    assert(!lv[k as int].1.primary);
                }
            }
            return Some(k);
        }
        k += 1;
    }
    None
}

pub fn select_primary_connector(
    logical_by_connector: &Vec<(String, LogicalMonitorSnapshot)>,
    plan: &crate::planner::LayoutPlan,
) -> (r: Option<String>)
    ensures
        opt_view(r) == primary_spec(kv_views(logical_by_connector@), plan@.outputs),
{
    let ghost s = plan@.outputs;
    let ghost f = is_enabled_entry();
    // The enabled names, in plan order.
    let mut names: Vec<String> = Vec::new();
    let mut i: usize = 0;
    while i < plan.outputs.len()
        invariant
            s == plan@.outputs,
            f == is_enabled_entry(),
            i <= s.len(),
            crate::text::views(names@) == first_names(crate::store::keep(s.take(i as int), f)),
        decreases s.len() - i,
    {
        proof {
            crate::store::lemma_keep_step(s, f, i as int);
        }
        assert(s[i as int] == (plan.outputs@[i as int].0@, plan.outputs@[i as int].1@));
        if plan.outputs[i].1.enabled {
            let ghost old_n = names@;
            names.push(plan.outputs[i].0.clone());
            proof {
                let kept = crate::store::keep(s.take(i as int), f);
                assert(first_names(kept.push(s[i as int])) =~= first_names(kept).push(s[i as int].0));
                assert(crate::text::views(names@) =~= crate::text::views(old_n).push(s[i as int].0));
            }
        }
        i += 1;
    }
    assert(s.take(s.len() as int) =~= s);
    let ghost ns = enabled_names(s);
    if names.len() == 0 {
        return None;
    }
    assert(crate::text::views(names@) == ns);
    // The current primary, where it stays enabled.
    match first_primary_index(logical_by_connector) {
        Some(k) => {
            let current = &logical_by_connector[k].0;
            if contains_name(&names, current) {
                return Some(current.clone());
            }
        },
        None => {},
    }
    // Else the least enabled name.
    let mut best: usize = 0;
    let mut j: usize = 1;
    proof {
        crate::text::lemma_str_lt_irreflexive(names@[0]@);
    }
    while j < names.len()
        invariant
            1 <= j <= names@.len(),
            best < names@.len(),
            forall|q: int| 0 <= q < j ==> !str_lt(#[trigger] names@[q]@, names@[best as int]@),
        decreases names@.len() - j,
    {
        if string_lt(&names[j], &names[best]) {
            proof {
                assert forall|q: int| 0 <= q < j + 1 implies !str_lt(#[trigger] names@[q]@, names@[j as int]@) by {
                    if q < j {
                        if str_lt(names@[q]@, names@[j as int]@) {
                            crate::text::lemma_str_lt_transitive(names@[q]@, names@[j as int]@, names@[best as int]@);
                        }
                    } else {
                        crate::text::lemma_str_lt_irreflexive(names@[j as int]@);
                    }
                }
            }
            best = j;
        }
        j += 1;
    }
    proof {
        let v = crate::text::views(names@);
        assert(v[best as int] == names@[best as int]@);
        assert forall|q: int| 0 <= q < v.len() implies !str_lt(#[trigger] v[q], names@[best as int]@) by {
            assert(v[q] == names@[q]@);
        }
        lemma_least_name(names@[best as int]@, v);
    }
    Some(names[best].clone())
}

// ---------------------------------------------------------------------------
// One logical monitor per group
// ---------------------------------------------------------------------------

/// The mode of a monitor that an output's planned mode resolves to (its
/// refresh rate rounded to whole Hz), or why none does.
#[derive(Debug, PartialEq)]
pub enum ModeResolution {
    Found { id: String, width: u32, height: u32, refresh: u32 },
    Missing(String),
}

pub ghost enum ModeResolutionView {
    Found { id: Seq<char>, width: u32, height: u32, refresh: u32 },
    Missing(Seq<char>),
}

impl View for ModeResolution {
    type V = ModeResolutionView;

    open spec fn view(&self) -> ModeResolutionView {
        match self {
            ModeResolution::Found { id, width, height, refresh } => ModeResolutionView::Found {
                id: id@,
                width: *width,
                height: *height,
                refresh: *refresh,
            },
            ModeResolution::Missing(e) => ModeResolutionView::Missing(e@),
        }
    }
}

/// A logical monitor as Mutter is asked for it: where it is, its scale (bit
/// pattern of an IEEE-754 binary64 value) and transform, whether it is the
/// primary one, and each monitor in it with its mode id.
#[derive(Debug, PartialEq)]
pub struct LogicalMonitorRequest {
    pub x: i32,
    pub y: i32,
    pub scale: u64,
    pub transform: u32,
    pub primary: bool,
    pub monitors: Vec<(String, String)>,
}

pub ghost struct LogicalMonitorRequestView {
    pub x: i32,
    pub y: i32,
    pub scale: u64,
    pub transform: u32,
    pub primary: bool,
    pub monitors: Seq<(Seq<char>, Seq<char>)>,
}

impl View for LogicalMonitorRequest {
    type V = LogicalMonitorRequestView;

    open spec fn view(&self) -> LogicalMonitorRequestView {
        LogicalMonitorRequestView {
            x: self.x,
            y: self.y,
            scale: self.scale,
            transform: self.transform,
            primary: self.primary,
            monitors: kv_views(self.monitors@),
        }
    }
}

pub type Resolutions = Seq<(Seq<char>, ModeResolutionView)>;

/// Why the `j`-th output of a group cannot be shown: its monitor is not
/// connected, or its mode does not resolve.
pub open spec fn member_error(g: Entries, connected: Seq<Seq<char>>, res: Resolutions, j: int) -> Option<Seq<char>> {
    let name = g[j].0;
    if !connected.contains(name) {
        Some("output `"@ + name + "` is not connected on this GNOME session"@)
    } else {
        match lookup(res, name) {
            Some(ModeResolutionView::Missing(e)) => Some(
                "failed to resolve mode for output `"@ + name + "`: "@ + e,
            ),
            _ => None,
        }
    }
}

pub open spec fn first_member_error(g: Entries, connected: Seq<Seq<char>>, res: Resolutions) -> Option<int> {
    if exists|j: int| 0 <= j < g.len() && #[trigger] member_error(g, connected, res, j) is Some {
        Some(
            choose|j: int|
                0 <= j < g.len() && #[trigger] member_error(g, connected, res, j) is Some && forall|k: int|
                    0 <= k < j ==> #[trigger] member_error(g, connected, res, k) is None,
        )
    } else {
        None
    }
}

/// The width, height and rounded refresh rate a member resolved to.
pub open spec fn signature(res: Resolutions, name: Seq<char>) -> (u32, u32, u32) {
    match lookup(res, name) {
        Some(ModeResolutionView::Found { width, height, refresh, .. }) => (width, height, refresh),
        _ => (0, 0, 0),
    }
}

pub open spec fn resolved_id(res: Resolutions, name: Seq<char>) -> Seq<char> {
    match lookup(res, name) {
        Some(ModeResolutionView::Found { id, .. }) => id,
        _ => Seq::empty(),
    }
}

pub open spec fn mixed_modes_message() -> Seq<char> {
    "the `gnome` backend cannot mirror outputs with different modes in one logical monitor; use `waytorandr set mirror` or `waytorandr set common` instead"@
}

/// The logical monitor of a group (its root first): every member's monitor
/// connected and its mode resolved, all in one mode; placed, turned and
/// scaled as the root; primary where it holds the primary connector.
pub open spec fn logical_monitor_spec(
    g: Entries,
    connected: Seq<Seq<char>>,
    res: Resolutions,
    root_scale: u64,
    primary: Option<Seq<char>>,
) -> Result<LogicalMonitorRequestView, Seq<char>> {
    if g.len() == 0 {
        Err("empty mirrored output group"@)
    } else {
        match first_member_error(g, connected, res) {
            Some(j) => Err(member_error(g, connected, res, j)->0),
            None => if exists|j: int| 0 <= j < g.len() && signature(res, (#[trigger] g[j]).0) != signature(res, g[0].0) {
                Err(mixed_modes_message())
            } else {
                Ok(
                    LogicalMonitorRequestView {
                        x: g[0].1.position.x,
                        y: g[0].1.position.y,
                        scale: root_scale,
                        transform: transform_to_gnome_spec(g[0].1.transform),
                        primary: primary matches Some(p) && exists|j: int| 0 <= j < g.len() && (#[trigger] g[j]).0 == p,
                        monitors: g.map_values(
                            |e: (Seq<char>, crate::model::OutputStateView)| (e.0, resolved_id(res, e.0)),
                        ),
                    },
                )
            },
        }
    }
}

fn contains_str(v: &Vec<String>, x: &str) -> (r: bool)
    ensures
        r == crate::text::views(v@).contains(x@),
{
    let mut i: usize = 0;
    while i < v.len()
        invariant
            i <= v@.len(),
            forall|j: int| 0 <= j < i ==> v@[j]@ != x@,
        decreases v@.len() - i,
    {
        if crate::text::str_eq(v[i].as_str(), x) {
            assert(crate::text::views(v@)[i as int] == x@);
            return true;
        }
        i += 1;
    }
    proof {
        if crate::text::views(v@).contains(x@) {
            let k = choose|k: int| 0 <= k < v@.len() && crate::text::views(v@)[k] == x@;
            assert(v@[k]@ == x@);
        }
    }
    false
}

fn member_problem(
    group: &Vec<(String, crate::model::OutputState)>,
    connected: &Vec<String>,
    res: &Vec<(String, ModeResolution)>,
    j: usize,
) -> (r: Option<String>)
    requires
        j < group@.len(),
    ensures
        opt_view(r) == member_error(
            crate::model::entry_views(group@),
            crate::text::views(connected@),
            kv_views(res@),
            j as int,
        ),
{
    let name = group[j].0.as_str();
    assert(crate::model::entry_views(group@)[j as int].0 == name@);
    if !contains_str(connected, name) {
        let mut e = String::new();
        push_str(&mut e, "output `");
        push_str(&mut e, name);
        push_str(&mut e, "` is not connected on this GNOME session");
        return Some(e);
    }
    match assoc_get(res, name) {
        Some(ModeResolution::Missing(why)) => {
            let mut e = String::new();
            push_str(&mut e, "failed to resolve mode for output `");
            push_str(&mut e, name);
            push_str(&mut e, "`: ");
            push_str(&mut e, why.as_str());
            Some(e)
        },
        _ => None,
    }
}

fn signature_of(res: &Vec<(String, ModeResolution)>, name: &str) -> (r: (u32, u32, u32))
    ensures
        r == signature(kv_views(res@), name@),
{
    match assoc_get(res, name) {
        Some(ModeResolution::Found { width, height, refresh, .. }) => (*width, *height, *refresh),
        _ => (0, 0, 0),
    }
}

fn resolved_id_of(res: &Vec<(String, ModeResolution)>, name: &str) -> (r: String)
    ensures
        r@ == resolved_id(kv_views(res@), name@),
{
    match assoc_get(res, name) {
        Some(ModeResolution::Found { id, .. }) => id.clone(),
        _ => String::new(),
    }
}

fn first_member_problem(
    group: &Vec<(String, crate::model::OutputState)>,
    connected: &Vec<String>,
    res: &Vec<(String, ModeResolution)>,
) -> (r: Option<String>)
    ensures
        ({
            let g = crate::model::entry_views(group@);
            let cn = crate::text::views(connected@);
            let rv = kv_views(res@);
            match first_member_error(g, cn, rv) {
                Some(j) => r matches Some(e) && e@ == member_error(g, cn, rv, j)->0,
                None => r is None,
            }
        }),
{
    let ghost g = crate::model::entry_views(group@);
    let ghost cn = crate::text::views(connected@);
    let ghost rv = kv_views(res@);
    let mut j: usize = 0;
    while j < group.len()
        invariant
            g == crate::model::entry_views(group@),
            cn == crate::text::views(connected@),
            rv == kv_views(res@),
            j <= group@.len(),
            forall|k: int| 0 <= k < j ==> #[trigger] member_error(g, cn, rv, k) is None,
        decreases group@.len() - j,
    {
        if let Some(e) = member_problem(group, connected, res, j) {
            proof {
                assert(member_error(g, cn, rv, j as int) is Some);
                let c = first_member_error(g, cn, rv)->0;
                assert(member_error(g, cn, rv, c) is Some);
                if c < j {
                    assert(member_error(g, cn, rv, c) is None);
                }
                if c > j {
                    assert(member_error(g, cn, rv, j as int) is None);
                }
            }
            return Some(e);
        }
        j += 1;
    }
    None
}

pub open spec fn monitor_ids(g: Entries, rv: Resolutions) -> Seq<(Seq<char>, Seq<char>)> {
    g.map_values(|e: (Seq<char>, crate::model::OutputStateView)| (e.0, resolved_id(rv, e.0)))
}

fn same_signature(a: (u32, u32, u32), b: (u32, u32, u32)) -> (r: bool)
    ensures
        r == (a == b),
{
    a.0 == b.0 && a.1 == b.1 && a.2 == b.2
}

#[verifier::rlimit(50)]
fn first_other_mode(group: &Vec<(String, crate::model::OutputState)>, res: &Vec<(String, ModeResolution)>) -> (r: bool)
    requires
        group@.len() > 0,
    ensures
        ({
            let g = crate::model::entry_views(group@);
            let rv = kv_views(res@);
            r == exists|j: int| 0 <= j < g.len() && signature(rv, (#[trigger] g[j]).0) != signature(rv, g[0].0)
        }),
{
    let ghost g = crate::model::entry_views(group@);
    let ghost rv = kv_views(res@);
    let root_sig = signature_of(res, group[0].0.as_str());
    assert(g[0].0 == group@[0].0@);
    let mut k: usize = 0;
    while k < group.len()
        invariant
            g == crate::model::entry_views(group@),
            rv == kv_views(res@),
            g.len() > 0,
            root_sig == signature(rv, g[0].0),
            k <= group@.len(),
            forall|i: int| 0 <= i < k ==> signature(rv, (#[trigger] g[i]).0) == root_sig,
        decreases group@.len() - k,
    {
        assert(g[k as int].0 == group@[k as int].0@);
        if !same_signature(signature_of(res, group[k].0.as_str()), root_sig) {
            return true;
        }
        k += 1;
    }
    false
}

fn monitor_id_list(group: &Vec<(String, crate::model::OutputState)>, res: &Vec<(String, ModeResolution)>) -> (r: Vec<
    (String, String),
>)
    ensures
        kv_views(r@) == monitor_ids(crate::model::entry_views(group@), kv_views(res@)),
{
    let ghost g = crate::model::entry_views(group@);
    let ghost rv = kv_views(res@);
    let mut monitors: Vec<(String, String)> = Vec::new();
    let mut k: usize = 0;
    while k < group.len()
        invariant
            g == crate::model::entry_views(group@),
            rv == kv_views(res@),
            k <= group@.len(),
            kv_views(monitors@) == monitor_ids(g.take(k as int), rv),
        decreases group@.len() - k,
    {
        let name = group[k].0.as_str();
        assert(g[k as int].0 == name@);
        let ghost before = monitors@;
        monitors.push((group[k].0.clone(), resolved_id_of(res, name)));
        assert(kv_views(monitors@) =~= kv_views(before).push((g[k as int].0, resolved_id(rv, g[k as int].0))));
        assert(monitor_ids(g.take(k + 1), rv) =~= monitor_ids(g.take(k as int), rv).push(
            (g[k as int].0, resolved_id(rv, g[k as int].0)),
        ));
        k += 1;
    }
    assert(g.take(g.len() as int) =~= g);
    monitors
}

fn group_has(group: &Vec<(String, crate::model::OutputState)>, p: &str) -> (r: bool)
    ensures
        r == exists|j: int| 0 <= j < group@.len() && (#[trigger] crate::model::entry_views(group@)[j]).0 == p@,
{
    let ghost g = crate::model::entry_views(group@);
    let mut j: usize = 0;
    while j < group.len()
        invariant
            g == crate::model::entry_views(group@),
            j <= group@.len(),
            forall|k: int| 0 <= k < j ==> (#[trigger] g[k]).0 != p@,
        decreases group@.len() - j,
    {
        assert(g[j as int].0 == group@[j as int].0@);
        if crate::text::str_eq(group[j].0.as_str(), p) {
            return true;
        }
        j += 1;
    }
    false
}

/// The logical monitor Mutter is asked for, for one group of outputs.
/// `res` holds what each output's planned mode resolved to, and
/// `root_scale` the scale that the root's resolved mode supports closest to
/// the planned one.
pub fn build_logical_monitor(
    group: &Vec<(String, crate::model::OutputState)>,
    connected: &Vec<String>,
    res: &Vec<(String, ModeResolution)>,
    root_scale: u64,
    primary_connector: Option<&str>,
) -> (r: Result<LogicalMonitorRequest, String>)
    ensures
        ({
            let spec = logical_monitor_spec(
                crate::model::entry_views(group@),
                crate::text::views(connected@),
                kv_views(res@),
                root_scale,
                match primary_connector {
                    Some(p) => Some(p@),
                    None => None,
                },
            );
            match spec {
                Ok(v) => r matches Ok(x) && x@ == v,
                Err(e) => r matches Err(m) && m@ == e,
            }
        }),
{
    if group.len() == 0 {
        return Err("empty mirrored output group".to_owned());
    }
    if let Some(e) = first_member_problem(group, connected, res) {
        return Err(e);
    }
    if first_other_mode(group, res) {
        return Err(mixed_modes_message_text());
    }
    let monitors = monitor_id_list(group, res);
    let primary = match primary_connector {
        Some(p) => group_has(group, p),
        None => false,
    };
    assert(crate::model::entry_views(group@)[0].1 == group@[0].1@);
    Ok(
        LogicalMonitorRequest {
            x: group[0].1.position.x,
            y: group[0].1.position.y,
            scale: root_scale,
            transform: transform_to_gnome(group[0].1.transform),
            primary,
            monitors,
        },
    )
}

fn mixed_modes_message_text() -> (r: String)
    ensures
        r@ == mixed_modes_message(),
{
    "the `gnome` backend cannot mirror outputs with different modes in one logical monitor; use `waytorandr set mirror` or `waytorandr set common` instead".to_owned()
}

/// The scale asked for a group: the one resolved for its root, else the
/// root's planned scale.
pub open spec fn root_scale_spec(scales: Seq<(Seq<char>, u64)>, g: Entries) -> u64 {
    match lookup(scales, g[0].0) {
        Some(x) => x,
        None => g[0].1.scale,
    }
}

/// The logical monitors of the groups, or the first group's failure.
pub open spec fn monitors_spec(
    groups: Seq<Entries>,
    connected: Seq<Seq<char>>,
    res: Resolutions,
    scales: Seq<(Seq<char>, u64)>,
    primary: Option<Seq<char>>,
) -> Result<Seq<LogicalMonitorRequestView>, Seq<char>>
    decreases groups.len(),
{
    if groups.len() == 0 {
        Ok(Seq::empty())
    } else {
        match monitors_spec(groups.drop_last(), connected, res, scales, primary) {
            Err(e) => Err(e),
            Ok(done) => {
                let g = groups.last();
                let scale = if g.len() > 0 {
                    root_scale_spec(scales, g)
                } else {
                    0
                };
                match logical_monitor_spec(g, connected, res, scale, primary) {
                    Err(e) => Err(e),
                    Ok(m) => Ok(done.push(m)),
                }
            },
        }
    }
}

/// The plan's groups of outputs, each a logical monitor: the enabled
/// outputs top to bottom and left to right, grouped by root.
pub open spec fn plan_groups(plan: Entries) -> Result<Seq<Entries>, Seq<char>> {
    let e = crate::text::sort_by(crate::store::keep(plan, is_enabled_entry()), placement_lt_fn());
    match first_group_error(e) {
        Some(i) => Err(group_error_message(e, i)),
        None => {
            let roots = distinct_in_order(roots_seq(e));
            Ok(Seq::new(roots.len(), |k: int| group_spec(e, roots[k])))
        },
    }
}

/// The logical monitors Mutter is asked for to apply a plan, the primary
/// being the one that holds the chosen primary connector.
pub open spec fn apply_config_spec(
    plan: Entries,
    logical: Seq<(Seq<char>, SnapshotView)>,
    connected: Seq<Seq<char>>,
    res: Resolutions,
    scales: Seq<(Seq<char>, u64)>,
) -> Result<Seq<LogicalMonitorRequestView>, Seq<char>> {
    match plan_groups(plan) {
        Err(e) => Err(e),
        Ok(groups) => monitors_spec(groups, connected, res, scales, primary_spec(logical, plan)),
    }
}

proof fn lemma_monitors_fail_from(
    groups: Seq<Entries>,
    connected: Seq<Seq<char>>,
    res: Resolutions,
    scales: Seq<(Seq<char>, u64)>,
    primary: Option<Seq<char>>,
    k: int,
)
    requires
        1 <= k <= groups.len(),
        monitors_spec(groups.take(k), connected, res, scales, primary) is Err,
    ensures
        monitors_spec(groups, connected, res, scales, primary) == monitors_spec(
            groups.take(k),
            connected,
            res,
            scales,
            primary,
        ),
    decreases groups.len() - k,
{
    if k == groups.len() {
        assert(groups.take(k) =~= groups);
    } else {
        assert(groups.take(k + 1).drop_last() =~= groups.take(k));
        lemma_monitors_fail_from(groups, connected, res, scales, primary, k + 1);
    }
}

fn root_scale_of(scales: &Vec<(String, u64)>, group: &Vec<(String, crate::model::OutputState)>) -> (r: u64)
    requires
        group@.len() > 0,
    ensures
        r == root_scale_spec(kv_views_u64(scales@), crate::model::entry_views(group@)),
{
    assert(crate::model::entry_views(group@)[0] == (group@[0].0@, group@[0].1@));
    match assoc_get_u64(scales, group[0].0.as_str()) {
        Some(x) => x,
        None => group[0].1.scale,
    }
}

pub open spec fn kv_views_u64(s: Seq<(String, u64)>) -> Seq<(Seq<char>, u64)> {
    s.map_values(|e: (String, u64)| (e.0@, e.1))
}

fn assoc_get_u64(v: &Vec<(String, u64)>, k: &str) -> (r: Option<u64>)
    ensures
        r == lookup(kv_views_u64(v@), k@),
{
    let ghost s = kv_views_u64(v@);
    let mut i: usize = 0;
    while i < v.len()
        invariant
            s == kv_views_u64(v@),
            i <= v@.len(),
            forall|j: int| 0 <= j < i ==> view_names(s)[j] != k@,
        decreases v@.len() - i,
    {
        assert(view_names(s)[i as int] == v@[i as int].0@);
        if crate::text::str_eq(v[i].0.as_str(), k) {
            proof {
                crate::assoc::lemma_name_index_first(view_names(s), k@, i as int);
            }
            return Some(v[i].1);
        }
        i += 1;
    }
    proof {
        crate::assoc::lemma_name_index(view_names(s), k@);
    }
    None
}

pub open spec fn group_views(groups: Seq<Vec<(String, crate::model::OutputState)>>) -> Seq<Entries> {
    groups.map_values(|g: Vec<(String, crate::model::OutputState)>| crate::model::entry_views(g@))
}

fn monitors_for_groups(
    groups: &Vec<Vec<(String, crate::model::OutputState)>>,
    connected: &Vec<String>,
    res: &Vec<(String, ModeResolution)>,
    scales: &Vec<(String, u64)>,
    primary: &Option<String>,
) -> (r: Result<Vec<LogicalMonitorRequest>, String>)
    ensures
        match monitors_spec(
            group_views(groups@),
            crate::text::views(connected@),
            kv_views(res@),
            kv_views_u64(scales@),
            opt_view(*primary),
        ) {
            Ok(v) => r matches Ok(x) && x@.len() == v.len() && forall|k: int| 0 <= k < v.len() ==> (#[trigger] x@[k])@ == v[k],
            Err(e) => r matches Err(m) && m@ == e,
        },
{
    let ghost gs = group_views(groups@);
    let ghost pr = opt_view(*primary);
    let ghost cn = crate::text::views(connected@);
    let ghost rv = kv_views(res@);
    let ghost sv = kv_views_u64(scales@);
    let p = match primary {
        Some(x) => Some(x.as_str()),
        None => None,
    };
    let mut out: Vec<LogicalMonitorRequest> = Vec::new();
    let mut k: usize = 0;
    assert(gs.take(0) =~= Seq::<Entries>::empty());
    while k < groups.len()
        invariant
            gs == group_views(groups@),
            cn == crate::text::views(connected@),
            rv == kv_views(res@),
            sv == kv_views_u64(scales@),
            pr == opt_view(*primary),
            pr == (match p {
                Some(x) => Some(x@),
                None => None,
            }),
            k <= groups@.len(),
            monitors_spec(gs.take(k as int), cn, rv, sv, pr) matches Ok(done) && out@.len() == done.len()
                && forall|q: int| 0 <= q < done.len() ==> (#[trigger] out@[q])@ == done[q],
        decreases groups@.len() - k,
    {
        let group = &groups[k];
        assert(gs[k as int] == crate::model::entry_views(group@));
        assert(gs.take(k + 1).drop_last() =~= gs.take(k as int));
        assert(gs.take(k + 1).last() == gs[k as int]);
        let scale = if group.len() > 0 {
            root_scale_of(scales, group)
        } else {
            0
        };
        match build_logical_monitor(group, connected, res, scale, p) {
            Ok(m) => {
                let ghost before = out@;
                out.push(m);
                proof {
                    let done = monitors_spec(gs.take(k as int), cn, rv, sv, pr)->Ok_0;
                    assert forall|q: int| 0 <= q < done.len() + 1 implies (#[trigger] out@[q])@ == done.push(
                        m@,
                    )[q] by {
                        if q < done.len() {
                            assert(out@[q] == before[q]);
                        }
                    }
                }
            },
            Err(err) => {
                proof {
                    assert(monitors_spec(gs.take(k + 1), cn, rv, sv, pr) == Err::<Seq<LogicalMonitorRequestView>, Seq<char>>(err@));
                    lemma_monitors_fail_from(gs, cn, rv, sv, pr, k as int + 1);
                }
                return Err(err);
            },
        }
        k += 1;
    }
    assert(gs.take(gs.len() as int) =~= gs);
    Ok(out)
}

/// The logical monitors that apply the plan. `connected` names the
/// connected monitors, `res` what each planned output's mode resolved to,
/// and `scales` the scale resolved for each output that roots a group.
pub fn build_apply_config(
    plan: &crate::planner::LayoutPlan,
    logical_by_connector: &Vec<(String, LogicalMonitorSnapshot)>,
    connected: &Vec<String>,
    res: &Vec<(String, ModeResolution)>,
    scales: &Vec<(String, u64)>,
) -> (r: Result<Vec<LogicalMonitorRequest>, String>)
    ensures
        match apply_config_spec(
            plan@.outputs,
            kv_views(logical_by_connector@),
            crate::text::views(connected@),
            kv_views(res@),
            kv_views_u64(scales@),
        ) {
            Ok(v) => r matches Ok(x) && x@.len() == v.len() && forall|k: int| 0 <= k < v.len() ==> (#[trigger] x@[k])@ == v[k],
            Err(e) => r matches Err(m) && m@ == e,
        },
{
    let primary = select_primary_connector(logical_by_connector, plan);
    let enabled = enabled_outputs_in_order(plan);
    let groups = match build_logical_groups(&enabled) {
        Ok(g) => g,
        Err(e) => return Err(e),
    };
    proof {
        let e = crate::model::entry_views(enabled@);
        let roots = distinct_in_order(roots_seq(e));
        assert(group_views(groups@) =~= Seq::new(roots.len(), |k: int| group_spec(e, roots[k])));
    }
    monitors_for_groups(&groups, connected, res, scales, &primary)
}

// ---------------------------------------------------------------------------
// Mutter's answers
// ---------------------------------------------------------------------------

/// The layout mode sent back to Mutter: the current one, where Mutter lets
/// it be changed.
pub fn layout_mode_to_apply(supports_changing_layout_mode: Option<bool>, layout_mode: Option<u32>) -> (r: Option<u32>)
    ensures
        r == (if supports_changing_layout_mode == Some(true) {
            layout_mode
        } else {
            None
        }),
{
    match supports_changing_layout_mode {
        Some(true) => layout_mode,
        _ => None,
    }
}

/// A refusal that speaks of a stale serial or of a changed configuration
/// means the outputs changed under the request; any other is a rejection.
pub open spec fn apply_failure_kind(message: Seq<char>) -> ConfigFailureKind {
    if lower_contains(message, "stale"@) || lower_contains(message, "serial"@) || lower_contains(
        message,
        "changed"@,
    ) || lower_contains(message, "out of date"@) {
        ConfigFailureKind::TopologyChanged
    } else {
        ConfigFailureKind::Rejected
    }
}

pub fn classify_apply_failure(message: &str) -> (r: ConfigFailureKind)
    ensures
        r == apply_failure_kind(message@),
{
    let c = chars_of(message);
    if chars_lower_contains(&c, &chars_of("stale")) || chars_lower_contains(&c, &chars_of("serial"))
        || chars_lower_contains(&c, &chars_of("changed")) || chars_lower_contains(
        &c,
        &chars_of("out of date"),
    ) {
        ConfigFailureKind::TopologyChanged
    } else {
        ConfigFailureKind::Rejected
    }
}

/// Mutter refused a plan it was asked to verify: `message` is the error's
/// own message, `detail` the error with its causes.
pub fn validation_rejection_from_apply_error(message: &str, detail: &str) -> (r: TestResult)
    ensures
        !r.success,
        r.status == ValidationStatus::Rejected,
        r.failure == Some(apply_failure_kind(message@)),
        opt_view(r.message) == Some("GNOME rejected the configuration: "@ + detail@),
{
    let mut m = String::new();
    push_str(&mut m, "GNOME rejected the configuration: ");
    push_str(&mut m, detail);
    TestResult::rejected(Some(classify_apply_failure(message)), Some(m))
}

/// Mutter refused a plan it was asked to apply.
pub fn apply_failure_from_apply_error(message: &str, detail: &str) -> (r: ApplyResult)
    ensures
        !r.success,
        r.failure == Some(apply_failure_kind(message@)),
        r.applied_state is None,
        opt_view(r.message) == Some("GNOME failed to apply the configuration: "@ + detail@),
{
    let mut m = String::new();
    push_str(&mut m, "GNOME failed to apply the configuration: ");
    push_str(&mut m, detail);
    ApplyResult::failed(Some(classify_apply_failure(message)), Some(m))
}

/// Mutter accepted a plan it was asked to verify.
pub fn validation_accepted(plan: &crate::planner::LayoutPlan) -> (r: TestResult)
    ensures
        r.success,
        r.status == ValidationStatus::Supported,
        r.failure is None,
        opt_view(r.message) == Some("GNOME validated "@ + decimal(plan.outputs@.len()) + " output changes"@),
{
    let mut m = String::new();
    push_str(&mut m, "GNOME validated ");
    push_decimal(&mut m, plan.outputs.len() as u128);
    push_str(&mut m, " output changes");
    TestResult::supported(Some(m))
}

/// Mutter applied a plan; `applied_state` is the topology read back.
pub fn apply_accepted(applied_state: crate::model::Topology) -> (r: ApplyResult)
    ensures
        r.success,
        r.failure is None,
        opt_view(r.message) == Some("GNOME applied the configuration"@),
        r.applied_state == Some(applied_state),
{
    ApplyResult::applied(Some("GNOME applied the configuration".to_owned()), Some(applied_state))
}

// ---------------------------------------------------------------------------
// Mutter's monitors as a topology
// ---------------------------------------------------------------------------

/// A mode of a monitor, with its refresh rate already rounded to whole Hz.
#[derive(Debug, PartialEq)]
pub struct MonitorModeInfo {
    pub id: String,
    pub mode: Mode,
    pub is_current: Option<bool>,
    pub is_preferred: Option<bool>,
}

/// A physical monitor as Mutter reports it; `display_name` is the raw
/// `display-name` property.
#[derive(Debug, PartialEq)]
pub struct MonitorInfo {
    pub connector: String,
    pub vendor: String,
    pub product: String,
    pub serial: String,
    pub display_name: Option<String>,
    pub modes: Vec<MonitorModeInfo>,
}

/// The first mode flagged current (or, for `current == false`, preferred).
pub open spec fn first_flagged(ms: Seq<MonitorModeInfo>, current: bool) -> Option<int> {
    if exists|i: int| 0 <= i < ms.len() && #[trigger] flagged(ms[i], current) {
        Some(choose|i: int| 0 <= i < ms.len() && #[trigger] flagged(ms[i], current) && forall|j: int|
            0 <= j < i ==> !#[trigger] flagged(ms[j], current))
    } else {
        None
    }
}

pub open spec fn flagged(m: MonitorModeInfo, current: bool) -> bool {
    if current {
        m.is_current == Some(true)
    } else {
        m.is_preferred == Some(true)
    }
}

/// The monitor's mode: the current one, else the preferred one, else the first.
pub open spec fn current_mode_index(ms: Seq<MonitorModeInfo>) -> Option<int> {
    match first_flagged(ms, true) {
        Some(i) => Some(i),
        None => match first_flagged(ms, false) {
            Some(i) => Some(i),
            None => if ms.len() > 0 {
                Some(0)
            } else {
                None
            },
        },
    }
}

fn find_flagged(ms: &Vec<MonitorModeInfo>, current: bool) -> (r: Option<usize>)
    ensures
        match r {
            Some(i) => first_flagged(ms@, current) == Some(i as int) && i < ms@.len(),
            None => first_flagged(ms@, current) is None,
        },
{
    let mut i: usize = 0;
    while i < ms.len()
        invariant
            i <= ms@.len(),
            forall|j: int| 0 <= j < i ==> !#[trigger] flagged(ms@[j], current),
        decreases ms@.len() - i,
    {
        let hit = if current {
            ms[i].is_current == Some(true)
        } else {
            ms[i].is_preferred == Some(true)
        };
        if hit {
            assert(flagged(ms@[i as int], current));
            proof {
                let c = first_flagged(ms@, current)->0;
                assert(flagged(ms@[c], current));
                if c < i {
                    assert(!flagged(ms@[c], current));
                }
                if c > i {
                    assert(!flagged(ms@[i as int], current));
                }
            }
            return Some(i);
        }
        i += 1;
    }
    None
}

pub fn current_monitor_mode(ms: &Vec<MonitorModeInfo>) -> (r: Option<usize>)
    ensures
        match r {
            Some(i) => current_mode_index(ms@) == Some(i as int) && i < ms@.len(),
            None => current_mode_index(ms@) is None,
        },
{
    match find_flagged(ms, true) {
        Some(i) => Some(i),
        None => match find_flagged(ms, false) {
            Some(i) => Some(i),
            None => if ms.len() > 0 {
                Some(0)
            } else {
                None
            },
        },
    }
}

pub open spec fn monitor_modes(ms: Seq<MonitorModeInfo>) -> Seq<Mode> {
    ms.map_values(|m: MonitorModeInfo| m.mode)
}

pub open spec fn description_spec(m: MonitorInfo) -> Option<Seq<char>> {
    match m.display_name {
        Some(d) => non_empty_spec(d@),
        None => None,
    }
}

/// The output a monitor becomes: named by its connector, identified by its
/// vendor, product, serial and display name, on where a logical monitor
/// shows it, and placed, scaled and turned as that logical monitor says.
pub open spec fn monitor_state_spec(m: MonitorInfo, l: Option<SnapshotView>) -> crate::model::OutputStateView {
    let desc = description_spec(m);
    crate::model::OutputStateView {
        identity: crate::model::identity::OutputIdentityView {
            edid_hash: None,
            make: non_empty_spec(m.vendor@),
            model: non_empty_spec(m.product@),
            serial: non_empty_spec(m.serial@),
            connector: Some(m.connector@),
            description: desc,
            is_virtual: is_virtual_output_spec(m.connector@, desc),
            is_ignored: false,
        },
        enabled: l is Some,
        mode: match current_mode_index(m.modes@) {
            Some(i) => Some(m.modes@[i].mode),
            None => None,
        },
        available_modes: super::dedup_spec(
            crate::text::sort_by(monitor_modes(m.modes@), super::listed_before_fn()),
        ),
        position: match l {
            Some(x) => x.position,
            None => Position { x: 0, y: 0 },
        },
        scale: match l {
            Some(x) => x.scale,
            None => crate::model::DEFAULT_SCALE,
        },
        scaled_resolution: None,
        transform: match l {
            Some(x) => transform_from_gnome_spec(x.transform),
            None => Transform::Normal,
        },
        mirror_target: match l {
            Some(x) => x.mirror_target,
            None => None,
        },
        backend_data: None,
    }
}

pub open spec fn export_spec(
    monitors: Seq<MonitorInfo>,
    logical: Seq<(Seq<char>, SnapshotView)>,
    n: int,
) -> Entries
    decreases n,
{
    if n <= 0 {
        Seq::empty()
    } else {
        let m = monitors[n - 1];
        assoc_set(
            export_spec(monitors, logical, n - 1),
            m.connector@,
            monitor_state_spec(m, lookup(logical, m.connector@)),
        )
    }
}

pub open spec fn monitor_areas_fit(monitors: Seq<MonitorInfo>) -> bool {
    forall|i: int| 0 <= i < monitors.len() ==> super::areas_fit(monitor_modes((#[trigger] monitors[i]).modes@))
}

/// The topology of Mutter's monitors and logical monitors.
pub fn export_current_state_topology(monitors: &Vec<MonitorInfo>, logical: &Vec<LogicalMonitorConfig>) -> (r:
    crate::model::Topology)
    requires
        monitor_areas_fit(monitors@),
    ensures
        r@ == export_spec(monitors@, logical_views(logical@, logical@.len() as int), monitors@.len() as int),
        r.wf(),
{
    let by_connector = logical_by_connector(logical);
    let ghost lv = kv_views(by_connector@);
    let mut topology = crate::model::Topology::new();
    assert(topology@ =~= Seq::<(Seq<char>, crate::model::OutputStateView)>::empty());
    let mut i: usize = 0;
    while i < monitors.len()
        invariant
            lv == kv_views(by_connector@),
            lv == logical_views(logical@, logical@.len() as int),
            monitor_areas_fit(monitors@),
            i <= monitors@.len(),
            topology.wf(),
            topology@ == export_spec(monitors@, lv, i as int),
        decreases monitors@.len() - i,
    {
        let m = &monitors[i];
        let l = crate::assoc::assoc_get(&by_connector, m.connector.as_str());
        let description = match &m.display_name {
            Some(d) => non_empty(d.as_str()),
            None => None,
        };
        let is_virtual = is_virtual_output(
            m.connector.as_str(),
            match &description {
                Some(d) => Some(d.as_str()),
                None => None,
            },
        );
        let mode = match current_monitor_mode(&m.modes) {
            Some(k) => Some(m.modes[k].mode),
            None => None,
        };
        let mut modes: Vec<Mode> = Vec::new();
        let mut k: usize = 0;
        while k < m.modes.len()
            invariant
                k <= m.modes@.len(),
                modes@ == monitor_modes(m.modes@).take(k as int),
            decreases m.modes@.len() - k,
        {
            modes.push(m.modes[k].mode);
            k += 1;
            assert(modes@ =~= monitor_modes(m.modes@).take(k as int));
        }
        assert(monitor_modes(m.modes@).take(m.modes@.len() as int) =~= monitor_modes(m.modes@));
        assert(super::areas_fit(monitor_modes(monitors@[i as int].modes@)));
        let available_modes = super::sorted_unique_modes(modes);
        let identity = crate::model::OutputIdentity {
            edid_hash: None,
            make: non_empty(m.vendor.as_str()),
            model: non_empty(m.product.as_str()),
            serial: non_empty(m.serial.as_str()),
            connector: Some(m.connector.clone()),
            description,
            is_virtual,
            is_ignored: false,
        };
        let state = match l {
            Some(x) => crate::model::OutputState {
                identity,
                enabled: true,
                mode,
                available_modes,
                position: x.position,
                scale: x.scale,
                scaled_resolution: None,
                transform: transform_from_gnome(x.transform),
                mirror_target: crate::text::copy_opt_string(&x.mirror_target),
                backend_data: None,
            },
            None => crate::model::OutputState {
                identity,
                enabled: false,
                mode,
                available_modes,
                position: Position { x: 0, y: 0 },
                scale: crate::model::DEFAULT_SCALE,
                scaled_resolution: None,
                transform: Transform::Normal,
                mirror_target: None,
                backend_data: None,
            },
        };
        assert(state@ == monitor_state_spec(monitors@[i as int], lookup(lv, m.connector@)));
        proof {
            crate::assoc::lemma_kv_names(topology.outputs@);
        }
        topology.insert(m.connector.clone(), state);
        proof {
            assert(view_names(topology@) =~= names_of(topology.outputs@)) by {
                crate::assoc::lemma_kv_names(topology.outputs@);
            }
        }
        i += 1;
    }
    topology
}

} // verus!
